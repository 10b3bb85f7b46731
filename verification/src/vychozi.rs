//! Výchozí data: třídy, místnosti, předměty, učitelé s aprobacemi, učební plán podle
//! ročníku a menu voleb; učitelé se přidělují tak, aby byly úvazky vyrovnané.

use crate::data::{
    index_tridy, index_ucitele, tridy_platne, ucitele_struktury, Menu, Mistnost, Nastaveni, PlanovaHodina, Pol,
    Predmet, Skola, Struktura, Trida, TypStudia, Ucitel, Volba,
};
use crate::data::{Pohlavi, Projekt, SkolniRok, SkupinaAj, StavStudenta, Student};
use crate::doplneni::{doplneno, doplnit_volby, jen_volby, lemma_stejne_volby_zaka};
use crate::mapa::Mapa;
use crate::rok::{index_menu, jen_skupina, rozdel_tridu, volby_platne};
use crate::text::{cislo2, dvoumistne, porovnej, pripoj, rovno, spoj};
use vstd::prelude::*;

verus! {

/// Údaje třídy: id, název, ročník, typ studia, kmenová učebna a následník.
pub open spec fn udaje_tridy(t: Trida) -> (Seq<char>, Seq<char>, u8, TypStudia, Seq<char>, Option<Seq<char>>) {
    (t.id@, t.nazev@, t.rocnik, t.typ, t.kmenova@, match t.naslednik {
        Some(n) => Some(n@),
        None => None,
    })
}

/// Výchozí třídy: osmileté prima až oktáva (od kvarty po dvou) a čtyřleté 1A–4A.
pub open spec fn vychozi_tridy_spec() -> Seq<(Seq<char>, Seq<char>, u8, TypStudia, Seq<char>, Option<Seq<char>>)> {
    seq![
        ("prima"@, "prima"@, 1u8, TypStudia::Osmilete, "1G"@, Some("sekunda"@)),
        ("sekunda"@, "sekunda"@, 2u8, TypStudia::Osmilete, "2G"@, Some("tercie"@)),
        ("tercie"@, "tercie"@, 3u8, TypStudia::Osmilete, "3G"@, Some("kvartaA"@)),
        ("kvartaA"@, "kvarta A"@, 4u8, TypStudia::Osmilete, "kvartaA"@, Some("kvintaA"@)),
        ("kvartaB"@, "kvarta B"@, 4u8, TypStudia::Osmilete, "kvartaB"@, Some("kvintaB"@)),
        ("kvintaA"@, "kvinta A"@, 5u8, TypStudia::Osmilete, "kvintaA"@, Some("sextaA"@)),
        ("kvintaB"@, "kvinta B"@, 5u8, TypStudia::Osmilete, "kvintaB"@, Some("sextaB"@)),
        ("sextaA"@, "sexta A"@, 6u8, TypStudia::Osmilete, "sextaA"@, Some("septimaA"@)),
        ("sextaB"@, "sexta B"@, 6u8, TypStudia::Osmilete, "sextaB"@, Some("septimaB"@)),
        ("septimaA"@, "septima A"@, 7u8, TypStudia::Osmilete, "septimaA"@, Some("oktavaA"@)),
        ("septimaB"@, "septima B"@, 7u8, TypStudia::Osmilete, "septimaB"@, Some("oktavaB"@)),
        ("oktavaA"@, "oktáva A"@, 8u8, TypStudia::Osmilete, "oktavaA"@, None),
        ("oktavaB"@, "oktáva B"@, 8u8, TypStudia::Osmilete, "oktavaB"@, None),
        ("1A"@, "první A"@, 1u8, TypStudia::Ctyrlete, "1A"@, Some("2A"@)),
        ("2A"@, "druhá A"@, 2u8, TypStudia::Ctyrlete, "2A"@, Some("3A"@)),
        ("3A"@, "třetí A"@, 3u8, TypStudia::Ctyrlete, "3A"@, Some("4A"@)),
        ("4A"@, "čtvrtá A"@, 4u8, TypStudia::Ctyrlete, "4A"@, None),
    ]
}

/// Třída s výchozím omezením.
fn t(id: &str, nazev: &str, rocnik: u8, typ: TypStudia, kmenova: &str, nasl: Option<&str>) -> (r: Trida)
    ensures
        r.id@ == id@,
        r.rocnik == rocnik,
        r.typ == typ,
        udaje_tridy(r) == (id@, nazev@, rocnik, typ, kmenova@, match nasl {
            Some(n) => Some(n@),
            None => None,
        }),
        r.omezeni_prepsat is None,
{
    Trida {
        id: id.to_owned(),
        nazev: nazev.to_owned(),
        rocnik,
        typ,
        kmenova: kmenova.to_owned(),
        naslednik: match nasl {
            Some(s) => Some(s.to_owned()),
            None => None,
        },
        omezeni_prepsat: None,
    }
}

/// Třídy školy: osmileté prima až oktáva (od kvarty po dvou) a čtyřleté 1A–4A.
pub fn vychozi_tridy() -> (r: Vec<Trida>)
    ensures
        r@.len() == 17,
        tridy_platne(r@),
        r@.map_values(|t: Trida| udaje_tridy(t)) == vychozi_tridy_spec(),
        forall|k: int| 0 <= k < r@.len() ==> (#[trigger] r@[k]).omezeni_prepsat is None,
{
    let mut v: Vec<Trida> = Vec::new();
    v.push(t("prima", "prima", 1, TypStudia::Osmilete, "1G", Some("sekunda")));
    v.push(t("sekunda", "sekunda", 2, TypStudia::Osmilete, "2G", Some("tercie")));
    v.push(t("tercie", "tercie", 3, TypStudia::Osmilete, "3G", Some("kvartaA")));
    v.push(t("kvartaA", "kvarta A", 4, TypStudia::Osmilete, "kvartaA", Some("kvintaA")));
    v.push(t("kvartaB", "kvarta B", 4, TypStudia::Osmilete, "kvartaB", Some("kvintaB")));
    v.push(t("kvintaA", "kvinta A", 5, TypStudia::Osmilete, "kvintaA", Some("sextaA")));
    v.push(t("kvintaB", "kvinta B", 5, TypStudia::Osmilete, "kvintaB", Some("sextaB")));
    v.push(t("sextaA", "sexta A", 6, TypStudia::Osmilete, "sextaA", Some("septimaA")));
    v.push(t("sextaB", "sexta B", 6, TypStudia::Osmilete, "sextaB", Some("septimaB")));
    v.push(t("septimaA", "septima A", 7, TypStudia::Osmilete, "septimaA", Some("oktavaA")));
    v.push(t("septimaB", "septima B", 7, TypStudia::Osmilete, "septimaB", Some("oktavaB")));
    v.push(t("oktavaA", "oktáva A", 8, TypStudia::Osmilete, "oktavaA", None));
    v.push(t("oktavaB", "oktáva B", 8, TypStudia::Osmilete, "oktavaB", None));
    v.push(t("1A", "první A", 1, TypStudia::Ctyrlete, "1A", Some("2A")));
    v.push(t("2A", "druhá A", 2, TypStudia::Ctyrlete, "2A", Some("3A")));
    v.push(t("3A", "třetí A", 3, TypStudia::Ctyrlete, "3A", Some("4A")));
    v.push(t("4A", "čtvrtá A", 4, TypStudia::Ctyrlete, "4A", None));
    proof {
        assert(v@.map_values(|t: Trida| udaje_tridy(t)) =~= vychozi_tridy_spec());
    }
    v
}

/// Údaje místnosti: id, název, kapacita a zda je kmenová.
pub open spec fn udaje_mistnosti(m: Mistnost) -> (Seq<char>, Seq<char>, u32, bool) {
    (m.id@, m.nazev@, m.kapacita, m.kmenova)
}

/// Výchozí odborné pracovny.
pub open spec fn odborne_mistnosti_spec() -> Seq<(Seq<char>, Seq<char>, u32, bool)> {
    seq![
        ("PSV"@, "pracovna společenských věd"@, 30u32, false),
        ("LCH"@, "laboratoř chemie"@, 24u32, false),
        ("PCH"@, "posluchárna chemie"@, 28u32, false),
        ("PŠJ"@, "pracovna španělštiny"@, 20u32, false),
        ("PAJ"@, "pracovna angličtiny"@, 17u32, false),
        ("PNJ"@, "pracovna němčiny"@, 24u32, false),
        ("PFJ"@, "pracovna francouzštiny"@, 17u32, false),
        ("VJP"@, "velká jazyková pracovna"@, 24u32, false),
        ("MJP"@, "malá jazyková pracovna"@, 14u32, false),
        ("PFB"@, "posluchárna fyziky a biologie"@, 28u32, false),
        ("PVV"@, "pracovna výtvarné výchovy"@, 28u32, false),
        ("LFY"@, "laboratoř fyziky"@, 24u32, false),
        ("PIF"@, "pracovna informatiky"@, 24u32, false),
        ("AULA"@, "aula"@, 80u32, false),
        ("HAL1"@, "hala 1"@, 30u32, false),
        ("HAL2"@, "hala 2"@, 30u32, false),
        ("BAZ1"@, "bazén – dráha 1"@, 20u32, false),
        ("BAZ2"@, "bazén – dráha 2"@, 20u32, false),
        ("BAZ3"@, "bazén – dráha 3"@, 20u32, false),
        ("BAZ4"@, "bazén – dráha 4"@, 20u32, false),
        ("PHV"@, "pracovna hudební výchovy"@, 28u32, false),
        ("DisV"@, "distanční výuka"@, 8u32, false),
    ]
}

/// Kmenová učebna každé třídy (30 míst) a odborné pracovny.
pub fn vychozi_mistnosti(tridy: &Vec<Trida>) -> (r: Vec<Mistnost>)
    ensures
        r@.len() == tridy@.len() + 22,
        forall|k: int|
            0 <= k < tridy@.len() ==> udaje_mistnosti(#[trigger] r@[k]) == (tridy@[k].kmenova@, "kmenová "@ + tridy@[k].nazev@, 30u32, true),
        r@.subrange(tridy@.len() as int, r@.len() as int).map_values(|m: Mistnost| udaje_mistnosti(m)) == odborne_mistnosti_spec(),
{
    let mut m: Vec<Mistnost> = Vec::new();
    let mut i: usize = 0;
    while i < tridy.len()
        invariant
            i <= tridy@.len(),
            m@.len() == i,
            forall|k: int|
                0 <= k < i ==> udaje_mistnosti(#[trigger] m@[k]) == (tridy@[k].kmenova@, "kmenová "@ + tridy@[k].nazev@, 30u32, true),
        decreases tridy@.len() - i,
    {
        let tr = &tridy[i];
        let casti = ["kmenová ", tr.nazev.as_str()];
        let nazev = spoj(&casti);
        proof {
            reveal_with_fuel(crate::text::spojeni, 3);
            assert(casti@.map_values(|x: &str| x@) =~= seq![casti@[0]@, casti@[1]@]);
        }
        m.push(Mistnost { id: tr.kmenova.clone(), nazev, kapacita: 30, kmenova: true });
        i = i + 1;
    }
    let odborne: [(&str, &str, u32); 22] = [
        ("PSV", "pracovna společenských věd", 30),
        ("LCH", "laboratoř chemie", 24),
        ("PCH", "posluchárna chemie", 28),
        ("PŠJ", "pracovna španělštiny", 20),
        ("PAJ", "pracovna angličtiny", 17),
        ("PNJ", "pracovna němčiny", 24),
        ("PFJ", "pracovna francouzštiny", 17),
        ("VJP", "velká jazyková pracovna", 24),
        ("MJP", "malá jazyková pracovna", 14),
        ("PFB", "posluchárna fyziky a biologie", 28),
        ("PVV", "pracovna výtvarné výchovy", 28),
        ("LFY", "laboratoř fyziky", 24),
        ("PIF", "pracovna informatiky", 24),
        ("AULA", "aula", 80),
        ("HAL1", "hala 1", 30),
        ("HAL2", "hala 2", 30),
        ("BAZ1", "bazén – dráha 1", 20),
        ("BAZ2", "bazén – dráha 2", 20),
        ("BAZ3", "bazén – dráha 3", 20),
        ("BAZ4", "bazén – dráha 4", 20),
        ("PHV", "pracovna hudební výchovy", 28),
        ("DisV", "distanční výuka", 8),
    ];
    let mut k: usize = 0;
    while k < 22
        invariant
            k <= 22,
            m@.len() == tridy@.len() + k,
            forall|j: int|
                0 <= j < tridy@.len() ==> udaje_mistnosti(#[trigger] m@[j]) == (tridy@[j].kmenova@, "kmenová "@ + tridy@[j].nazev@, 30u32, true),
            forall|j: int|
                0 <= j < k ==> udaje_mistnosti(#[trigger] m@[tridy@.len() + j]) == (odborne@[j].0@, odborne@[j].1@, odborne@[j].2, false),
        decreases 22 - k,
    {
        let (id, nazev, kap) = odborne[k];
        m.push(Mistnost { id: id.to_owned(), nazev: nazev.to_owned(), kapacita: kap, kmenova: false });
        k = k + 1;
    }
    proof {
        assert(odborne@.map_values(|x: (&str, &str, u32)| (x.0@, x.1@, x.2, false)) =~= odborne_mistnosti_spec());
        let sub = m@.subrange(tridy@.len() as int, m@.len() as int);
        assert forall|j: int| 0 <= j < 22 implies sub.map_values(|m: Mistnost| udaje_mistnosti(m))[j] == odborne_mistnosti_spec()[j] by {
            assert(sub[j] == m@[tridy@.len() + j]);
            assert(odborne@.map_values(|x: (&str, &str, u32)| (x.0@, x.1@, x.2, false))[j] == (odborne@[j].0@, odborne@[j].1@, odborne@[j].2, false));
        }
        assert(sub.map_values(|m: Mistnost| udaje_mistnosti(m)) =~= odborne_mistnosti_spec());
    }
    m
}

/// Seznam řetězců z literálů.
fn retezce_z(v: &[&str]) -> (r: Vec<String>)
    ensures
        r@.len() == v@.len(),
        forall|k: int| 0 <= k < v@.len() ==> (#[trigger] r@[k])@ == v@[k]@,
        r@.map_values(|s: String| s@) == v@.map_values(|s: &str| s@),
{
    let mut r: Vec<String> = Vec::new();
    let mut i: usize = 0;
    while i < v.len()
        invariant
            i <= v@.len(),
            r@.len() == i,
            forall|k: int| 0 <= k < i ==> (#[trigger] r@[k])@ == v@[k]@,
        decreases v@.len() - i,
    {
        r.push(v[i].to_owned());
        i = i + 1;
    }
    proof {
        assert(r@.map_values(|s: String| s@) =~= v@.map_values(|s: &str| s@));
    }
    r
}

/// Údaje předmětu: id, název, odborné místnosti v pořadí preference a zda smí do kmenové.
pub open spec fn udaje_predmetu(p: Predmet) -> (Seq<char>, Seq<char>, Seq<Seq<char>>, bool) {
    (p.id@, p.nazev@, p.specialni_mistnosti@.map_values(|s: String| s@), p.kmenova_ok)
}

/// Výchozí předměty s odbornými místnostmi.
pub open spec fn vychozi_predmety_spec() -> Seq<(Seq<char>, Seq<char>, Seq<Seq<char>>, bool)> {
    seq![
        ("ČJL"@, "Český jazyk a literatura"@, seq!["PSV"@], true),
        ("MAT"@, "Matematika"@, Seq::<Seq<char>>::empty(), true),
        ("AJ"@, "Anglický jazyk"@, seq!["PAJ"@, "PNJ"@, "VJP"@, "MJP"@], true),
        ("NJ2"@, "Německý jazyk"@, seq!["PNJ"@, "VJP"@, "MJP"@, "PAJ"@], true),
        ("ŠJ2"@, "Španělský jazyk"@, seq!["PŠJ"@, "VJP"@, "MJP"@, "PAJ"@], true),
        ("FJ2"@, "Francouzský jazyk"@, seq!["PFJ"@, "VJP"@, "MJP"@, "PAJ"@], true),
        ("LAT"@, "Latina"@, seq!["PFJ"@], true),
        ("DĚ"@, "Dějepis"@, seq!["PSV"@], true),
        ("ZE"@, "Zeměpis"@, seq!["PSV"@], true),
        ("OV"@, "Občanská výchova"@, seq!["PSV"@], true),
        ("ZSV"@, "Základy společenských věd"@, seq!["PSV"@], true),
        ("FY"@, "Fyzika"@, seq!["PFB"@], true),
        ("CHE"@, "Chemie"@, seq!["PCH"@, "PFB"@], true),
        ("BIO"@, "Biologie"@, seq!["PFB"@, "PCH"@], true),
        ("INF"@, "Informatika"@, seq!["PIF"@], false),
        ("TV"@, "Tělesná výchova"@, seq!["HAL1"@, "HAL2"@], false),
        ("PL"@, "Plavání"@, seq!["BAZ1"@, "BAZ2"@, "BAZ3"@, "BAZ4"@], false),
        ("HV"@, "Hudební výchova"@, seq!["PHV"@], false),
        ("VV"@, "Výtvarná výchova"@, seq!["PVV"@], false),
        ("DV"@, "Dramatická výchova"@, seq!["AULA"@], true),
        ("EV"@, "Estetická výchova"@, seq!["AULA"@], true),
        ("PCBI"@, "Praktikum z biologie"@, seq!["PCH"@], false),
        ("PCFY"@, "Praktikum z fyziky"@, seq!["LFY"@], false),
        ("PCCH"@, "Praktikum z chemie"@, seq!["LCH"@], false),
        ("IS"@, "Individuální studium"@, seq!["DisV"@], false),
        ("AS"@, "Asistované studium"@, seq!["DisV"@], false),
        ("SMA"@, "Seminář z matematiky"@, Seq::<Seq<char>>::empty(), true),
        ("SDG"@, "Deskriptivní geometrie"@, Seq::<Seq<char>>::empty(), true),
        ("SFY"@, "Seminář z fyziky"@, seq!["PFB"@], true),
        ("SCHE"@, "Seminář z chemie"@, seq!["PCH"@], true),
        ("SBCH"@, "Seminář z biochemie"@, seq!["PCH"@], true),
        ("SPCH"@, "Praktická chemie"@, seq!["LCH"@], false),
        ("SBR"@, "Seminář z biologie"@, seq!["PFB"@, "PCH"@], true),
        ("SČD"@, "Seminář z českých dějin"@, seq!["PSV"@], true),
        ("SLR"@, "Literární seminář"@, seq!["PSV"@], true),
        ("SPP"@, "Seminář psychologie"@, seq!["PSV"@], true),
        ("SFAV"@, "Filmová a audiovizuální výchova"@, seq!["PSV"@, "AULA"@], true),
        ("SZSV"@, "Seminář ze společenských věd"@, seq!["PSV"@], true),
        ("SZE"@, "Seminář ze zeměpisu"@, seq!["PSV"@], true),
        ("SAJ"@, "Konverzace v angličtině"@, seq!["VJP"@, "MJP"@, "PAJ"@], true),
        ("PRG"@, "Programování"@, seq!["PIF"@], false),
        ("SEK"@, "Seminář ekonomie"@, seq!["PIF"@], false),
    ]
}

fn p(id: &str, nazev: &str, mistnosti: &[&str], kmenova_ok: bool) -> (r: Predmet)
    ensures
        r.id@ == id@,
        udaje_predmetu(r) == (id@, nazev@, mistnosti@.map_values(|s: &str| s@), kmenova_ok),
{
    Predmet { id: id.to_owned(), nazev: nazev.to_owned(), specialni_mistnosti: retezce_z(mistnosti), kmenova_ok }
}

/// Předměty s odbornými místnostmi (semináře septimy a oktávy na konci).
pub fn vychozi_predmety() -> (r: Vec<Predmet>)
    ensures
        r@.len() == 42,
        r@.map_values(|p: Predmet| udaje_predmetu(p)) == vychozi_predmety_spec(),
{
    let jazykove = ["VJP", "MJP", "PAJ"];
    let mut v: Vec<Predmet> = Vec::new();
    v.push(p("ČJL", "Český jazyk a literatura", &["PSV"], true));
    v.push(p("MAT", "Matematika", &[], true));
    v.push(p("AJ", "Anglický jazyk", &["PAJ", "PNJ", "VJP", "MJP"], true));
    v.push(p("NJ2", "Německý jazyk", &["PNJ", "VJP", "MJP", "PAJ"], true));
    v.push(p("ŠJ2", "Španělský jazyk", &["PŠJ", "VJP", "MJP", "PAJ"], true));
    v.push(p("FJ2", "Francouzský jazyk", &["PFJ", "VJP", "MJP", "PAJ"], true));
    v.push(p("LAT", "Latina", &["PFJ"], true));
    v.push(p("DĚ", "Dějepis", &["PSV"], true));
    v.push(p("ZE", "Zeměpis", &["PSV"], true));
    v.push(p("OV", "Občanská výchova", &["PSV"], true));
    v.push(p("ZSV", "Základy společenských věd", &["PSV"], true));
    v.push(p("FY", "Fyzika", &["PFB"], true));
    v.push(p("CHE", "Chemie", &["PCH", "PFB"], true));
    v.push(p("BIO", "Biologie", &["PFB", "PCH"], true));
    v.push(p("INF", "Informatika", &["PIF"], false));
    v.push(p("TV", "Tělesná výchova", &["HAL1", "HAL2"], false));
    v.push(p("PL", "Plavání", &["BAZ1", "BAZ2", "BAZ3", "BAZ4"], false));
    v.push(p("HV", "Hudební výchova", &["PHV"], false));
    v.push(p("VV", "Výtvarná výchova", &["PVV"], false));
    v.push(p("DV", "Dramatická výchova", &["AULA"], true));
    v.push(p("EV", "Estetická výchova", &["AULA"], true));
    v.push(p("PCBI", "Praktikum z biologie", &["PCH"], false));
    v.push(p("PCFY", "Praktikum z fyziky", &["LFY"], false));
    v.push(p("PCCH", "Praktikum z chemie", &["LCH"], false));
    v.push(p("IS", "Individuální studium", &["DisV"], false));
    v.push(p("AS", "Asistované studium", &["DisV"], false));
    v.push(p("SMA", "Seminář z matematiky", &[], true));
    v.push(p("SDG", "Deskriptivní geometrie", &[], true));
    v.push(p("SFY", "Seminář z fyziky", &["PFB"], true));
    v.push(p("SCHE", "Seminář z chemie", &["PCH"], true));
    v.push(p("SBCH", "Seminář z biochemie", &["PCH"], true));
    v.push(p("SPCH", "Praktická chemie", &["LCH"], false));
    v.push(p("SBR", "Seminář z biologie", &["PFB", "PCH"], true));
    v.push(p("SČD", "Seminář z českých dějin", &["PSV"], true));
    v.push(p("SLR", "Literární seminář", &["PSV"], true));
    v.push(p("SPP", "Seminář psychologie", &["PSV"], true));
    v.push(p("SFAV", "Filmová a audiovizuální výchova", &["PSV", "AULA"], true));
    v.push(p("SZSV", "Seminář ze společenských věd", &["PSV"], true));
    v.push(p("SZE", "Seminář ze zeměpisu", &["PSV"], true));
    v.push(p("SAJ", "Konverzace v angličtině", &jazykove, true));
    v.push(p("PRG", "Programování", &["PIF"], false));
    v.push(p("SEK", "Seminář ekonomie", &["PIF"], false));
    proof {
        assert(v@.map_values(|p: Predmet| udaje_predmetu(p)) =~~= vychozi_predmety_spec());
    }
    v
}

/// Učitel (zkratka, jméno, aprobace).
fn u(v: &mut Vec<(String, String, Vec<String>)>, id: &str, jmeno: &str, apr: &[&str])
    ensures
        final(v)@.len() == old(v)@.len() + 1,
        final(v)@[old(v)@.len() as int].0@ == id@,
        forall|k: int| 0 <= k < old(v)@.len() ==> #[trigger] final(v)@[k] == old(v)@[k],
{
    v.push((id.to_owned(), jmeno.to_owned(), retezce_z(apr)));
}

/// Učitelé s aprobacemi. Jména známe jen u třídních – ostatní „(doplnit)“.
pub fn vychozi_ucitele() -> (r: Vec<(String, String, Vec<String>)>)
    ensures
        r@.len() == 42,
        r@[0].0@ == "SOJ"@,
        r@[1].0@ == "ŠAF"@,
{
    let mut v: Vec<(String, String, Vec<String>)> = Vec::new();
    u(&mut v, "SOJ", "Sojková", &["ČJL", "DĚ"]);
    u(&mut v, "ŠAF", "Šafránková", &["MAT", "FY"]);
    u(&mut v, "SLO", "Sloupová", &["AJ", "ČJL", "FJ2"]);
    u(&mut v, "HAM", "Hamerníková", &["MAT", "ZE"]);
    u(&mut v, "UHR", "Uhrinčaťová", &["NJ2", "AJ"]);
    u(&mut v, "PAŘ", "Pařík", &["DĚ", "ZSV", "OV"]);
    u(&mut v, "LIP", "Lipovská", &["ČJL", "ZSV", "SFAV"]);
    u(&mut v, "ŠMK", "(doplnit)", &["MAT", "INF", "SDG"]);
    u(&mut v, "TES", "Tesař", &["FY", "MAT", "PCFY"]);
    u(&mut v, "ČER", "Červenková", &["BIO", "CHE", "PCBI", "SBCH"]);
    u(&mut v, "TRO", "Trojanová", &["AJ", "ZE", "SAJ", "ŠJ2"]);
    u(&mut v, "VAI", "(doplnit)", &["TV", "BIO"]);
    u(&mut v, "HOR", "Horáková", &["DĚ", "ČJL", "SČD"]);
    u(&mut v, "SAU", "Sauerová", &["AJ", "ŠJ2"]);
    u(&mut v, "FID", "Fidlerová", &["ČJL", "AJ", "SLR"]);
    u(&mut v, "PAL", "(doplnit)", &["ZSV", "OV", "DĚ", "SPP"]);
    u(&mut v, "ŠMD", "(doplnit)", &["CHE", "BIO", "PCCH", "SCHE"]);
    u(&mut v, "LEB", "(doplnit)", &["TV", "ZE"]);
    u(&mut v, "ŠVE", "(doplnit)", &["MAT", "CHE", "SMA"]);
    u(&mut v, "CHOU", "(doplnit)", &["INF", "MAT", "PRG"]);
    u(&mut v, "BER", "(doplnit)", &["AJ", "ŠJ2"]);
    u(&mut v, "VYS", "(doplnit)", &["FJ2", "AJ"]);
    u(&mut v, "LIH", "(doplnit)", &["VV"]);
    u(&mut v, "KOŠ", "(doplnit)", &["NJ2", "DĚ"]);
    u(&mut v, "VEJ", "(doplnit)", &["TV", "PL"]);
    u(&mut v, "PALB", "(doplnit)", &["HV", "ČJL"]);
    u(&mut v, "NEŠ", "(doplnit)", &["FY", "INF", "PCFY", "SEK"]);
    u(&mut v, "SKŘ", "(doplnit)", &["ZE", "BIO", "PCBI", "SZE"]);
    u(&mut v, "PET", "(doplnit)", &["TV", "OV"]);
    u(&mut v, "HRK", "(doplnit)", &["ČJL", "OV", "SZSV", "FJ2"]);
    u(&mut v, "JIN", "(doplnit)", &["AJ", "NJ2"]);
    u(&mut v, "MAN", "(doplnit)", &["MAT", "ZE"]);
    u(&mut v, "SMO", "Smolková", &["BIO", "ZE", "PCBI"]);
    u(&mut v, "FAL", "(doplnit)", &["ŠJ2", "AJ"]);
    u(&mut v, "SCHO", "(doplnit)", &["FY", "MAT", "SFY"]);
    u(&mut v, "PAV", "(doplnit)", &["DV", "ČJL"]);
    u(&mut v, "BRD", "(doplnit)", &["CHE", "MAT", "PCCH", "SPCH"]);
    u(&mut v, "SVI", "(doplnit)", &["TV", "PL"]);
    u(&mut v, "WIE", "(doplnit)", &["NJ2"]);
    u(&mut v, "ČEM", "(doplnit)", &["LAT", "ČJL", "FJ2"]);
    u(&mut v, "FOG", "(doplnit)", &["BIO", "CHE", "SBR"]);
    u(&mut v, "VAIS", "Vaisová", &["MAT", "AJ"]);
    v
}

/// Přiděluje učitele z aprobací tak, aby byly úvazky vyrovnané (úvazky v půlhodinách).
struct Prirazovac {
    zatez: Vec<(String, u32, Vec<String>)>,
}

impl Prirazovac {
    /// Zkratky učitelů.
    spec fn ids(&self) -> Seq<Seq<char>> {
        self.zatez@.map_values(|x: (String, u32, Vec<String>)| x.0@)
    }

    /// Učitel s nejmenším úvazkem, který předmět učí (a když žádný, kterýkoli), kromě
    /// učitele `krome`; jeho úvazek se zvýší o `pulhodin`.
    fn vyber(&mut self, predmet: &str, pulhodin: u32, krome: Option<&str>) -> (r: String)
        requires
            old(self).zatez@.len() > 0,
        ensures
            final(self).ids() == old(self).ids(),
            final(self).zatez@.len() == old(self).zatez@.len(),
            old(self).ids().contains(r@),
            match krome {
                Some(k) => dve_ruzna(old(self).ids()) ==> r@ != k@,
                None => true,
            },
    {
        let mut best: usize = self.zatez.len();
        let mut pruchod: usize = 0;
        while pruchod < 2 && best == self.zatez.len()
            invariant
                pruchod <= 2,
                best <= self.zatez@.len(),
                self.zatez@ == old(self).zatez@,
                best < self.zatez@.len() ==> match krome {
                    Some(k) => self.zatez@[best as int].0@ != k@,
                    None => true,
                },
                pruchod == 2 && best == self.zatez@.len() ==> forall|x: int| 0 <= x < self.zatez@.len() ==> vylouceno(krome, (#[trigger] self.zatez@[x]).0@),
            decreases 2 - pruchod,
        {
            let mut i: usize = 0;
            while i < self.zatez.len()
                invariant
                    i <= self.zatez@.len(),
                    best <= self.zatez@.len(),
                    pruchod < 2,
                    self.zatez@ == old(self).zatez@,
                    best < self.zatez@.len() ==> match krome {
                        Some(k) => self.zatez@[best as int].0@ != k@,
                        None => true,
                    },
                    pruchod == 1 && best == self.zatez@.len() ==> forall|x: int| 0 <= x < i ==> vylouceno(krome, (#[trigger] self.zatez@[x]).0@),
                decreases self.zatez@.len() - i,
            {
                let umi = pruchod == 1 || crate::rok::obsahuje(&self.zatez[i].2, predmet);
                let vyloucen = match krome {
                    Some(k) => rovno(self.zatez[i].0.as_str(), k),
                    None => false,
                };
                if umi && !vyloucen && (best == self.zatez.len() || self.zatez[i].1 < self.zatez[best].1) {
                    best = i;
                }
                i = i + 1;
            }
            proof {
                if pruchod == 1 && best == self.zatez@.len() {
                    assert(i == self.zatez@.len());
                }
            }
            pruchod = pruchod + 1;
        }
        if best == self.zatez.len() {
            best = 0;
        }
        let ghost z0 = self.zatez@;
        proof {
            match krome {
                Some(k) => {
                    if dve_ruzna(old(self).ids()) && self.zatez@[best as int].0@ == k@ {
                        let (a, b) = choose|a: int, b: int|
                            0 <= a < old(self).ids().len() && 0 <= b < old(self).ids().len() && #[trigger] old(self).ids()[a]
                                != #[trigger] old(self).ids()[b];
                        assert(old(self).ids()[a] == self.zatez@[a].0@);
                        assert(old(self).ids()[b] == self.zatez@[b].0@);
                    }
                },
                None => {},
            }
        }
        let nova = self.zatez[best].1.saturating_add(pulhodin);
        self.zatez[best].1 = nova;
        let r = self.zatez[best].0.clone();
        proof {
            assert(self.ids() =~= z0.map_values(|x: (String, u32, Vec<String>)| x.0@));
            assert(self.ids()[best as int] == r@);
        }
        r
    }
}

/// Druh výuky v šabloně plánu.
#[derive(Clone, Copy)]
pub enum K {
    /// celá třída
    C,
    /// skupiny AJa / AJb
    S,
    /// dívky / chlapci
    P,
    /// lichý / sudý týden celou třídou
    Str(&'static str, &'static str),
    /// lichý / sudý týden ve skupinách
    StrSk(&'static str, &'static str),
}

/// Řádek šablony: předmět, hodin týdně, druh výuky, dvouhodinovky.
pub type Radek = (&'static str, u8, K, bool);

fn r(predmet: &'static str, hodin: u8, k: K, dvoj: bool) -> (x: Radek)
    ensures
        x == (predmet, hodin, k, dvoj),
{
    (predmet, hodin, k, dvoj)
}

/// Šablona učebního plánu pro efektivní ročník (viz `sablona`).
pub open spec fn sablona_spec(ef: u8) -> Seq<Radek> {
    if ef == 1 {
        seq![
            ("ČJL", 4, K::C, false),
            ("MAT", 4, K::C, false),
            ("AJ", 4, K::S, false),
            ("DĚ", 2, K::C, false),
            ("ZE", 2, K::C, false),
            ("BIO", 2, K::C, false),
            ("FY", 1, K::C, false),
            ("OV", 1, K::C, false),
            ("INF", 1, K::S, false),
            ("TV", 2, K::P, false),
            ("PL", 1, K::P, false),
            ("HV", 1, K::C, false),
            ("DV/VV", 2, K::Str("DV", "VV"), true),
            ("PCBI/PCFY", 1, K::StrSk("PCBI", "PCFY"), false),
        ]
    } else if ef == 2 {
        seq![
            ("ČJL", 4, K::C, false),
            ("MAT", 4, K::C, false),
            ("AJ", 3, K::S, false),
            ("DĚ", 2, K::C, false),
            ("ZE", 2, K::C, false),
            ("BIO", 2, K::C, false),
            ("FY", 2, K::C, false),
            ("OV", 1, K::C, false),
            ("TV", 2, K::P, false),
            ("HV", 1, K::C, false),
            ("DV/VV", 2, K::Str("DV", "VV"), true),
            ("PCBI/PCFY", 1, K::StrSk("PCBI", "PCFY"), false),
        ]
    } else if ef == 3 {
        seq![
            ("ČJL", 4, K::C, false),
            ("MAT", 4, K::C, false),
            ("AJ", 3, K::S, false),
            ("DĚ", 2, K::C, false),
            ("ZE", 1, K::C, false),
            ("BIO", 2, K::C, false),
            ("FY", 2, K::C, false),
            ("CHE", 2, K::C, false),
            ("OV", 1, K::C, false),
            ("TV", 2, K::P, false),
            ("HV", 1, K::C, false),
            ("DV/VV", 2, K::Str("DV", "VV"), true),
            ("PCCH/PCFY", 1, K::StrSk("PCCH", "PCFY"), false),
        ]
    } else if ef == 4 {
        seq![
            ("ČJL", 4, K::C, false),
            ("MAT", 4, K::C, false),
            ("AJ", 3, K::S, false),
            ("DĚ", 2, K::C, false),
            ("ZE", 2, K::C, false),
            ("BIO", 2, K::C, false),
            ("FY", 2, K::C, false),
            ("CHE", 2, K::C, false),
            ("OV", 1, K::C, false),
            ("TV", 2, K::P, false),
            ("HV", 1, K::C, false),
            ("VV", 1, K::C, false),
            ("INF", 1, K::S, false),
            ("LAT", 2, K::C, false),
            ("PCBI/PCCH", 1, K::StrSk("PCBI", "PCCH"), false),
        ]
    } else if ef == 5 {
        seq![
            ("ČJL", 3, K::C, false),
            ("MAT", 4, K::C, false),
            ("AJ", 3, K::S, false),
            ("DĚ", 2, K::C, false),
            ("ZE", 2, K::C, false),
            ("ZSV", 1, K::C, false),
            ("FY", 2, K::C, false),
            ("CHE", 2, K::C, false),
            ("BIO", 2, K::C, false),
            ("INF", 2, K::S, false),
            ("TV", 2, K::P, false),
            ("PCBI/PCCH", 1, K::StrSk("PCBI", "PCCH"), false),
        ]
    } else if ef == 6 {
        seq![
            ("ČJL", 3, K::C, false),
            ("MAT", 4, K::C, false),
            ("AJ", 3, K::S, false),
            ("DĚ", 2, K::C, false),
            ("ZE", 2, K::C, false),
            ("ZSV", 2, K::C, false),
            ("FY", 2, K::C, false),
            ("CHE", 2, K::C, false),
            ("BIO", 2, K::C, false),
            ("INF", 1, K::S, false),
            ("TV", 2, K::P, false),
            ("PCFY/PCCH", 1, K::StrSk("PCFY", "PCCH"), false),
        ]
    } else if ef == 7 {
        seq![
            ("ČJL", 4, K::C, false),
            ("MAT", 4, K::C, false),
            ("AJ", 3, K::S, false),
            ("DĚ", 2, K::C, false),
            ("ZE", 2, K::C, false),
            ("ZSV", 2, K::C, false),
            ("FY", 2, K::C, false),
            ("CHE", 2, K::C, false),
            ("BIO", 2, K::C, false),
            ("TV", 2, K::P, false),
        ]
    } else {
        seq![
            ("ČJL", 4, K::C, false),
            ("MAT", 3, K::C, false),
            ("AJ", 4, K::S, false),
            ("DĚ", 2, K::C, false),
            ("ZSV", 2, K::C, false),
            ("TV", 2, K::P, false),
        ]
    }
}

/// Učební plán podle efektivního ročníku (odhad z rozvrhu – ověřit proti učebnímu plánu).
fn sablona(ef: u8) -> (v: Vec<Radek>)
    ensures
        v@ == sablona_spec(ef),
{
    let mut v: Vec<Radek> = Vec::new();
    if ef == 1 {
        v.push(r("ČJL", 4, K::C, false));
        v.push(r("MAT", 4, K::C, false));
        v.push(r("AJ", 4, K::S, false));
        v.push(r("DĚ", 2, K::C, false));
        v.push(r("ZE", 2, K::C, false));
        v.push(r("BIO", 2, K::C, false));
        v.push(r("FY", 1, K::C, false));
        v.push(r("OV", 1, K::C, false));
        v.push(r("INF", 1, K::S, false));
        v.push(r("TV", 2, K::P, false));
        v.push(r("PL", 1, K::P, false));
        v.push(r("HV", 1, K::C, false));
        v.push(r("DV/VV", 2, K::Str("DV", "VV"), true));
        v.push(r("PCBI/PCFY", 1, K::StrSk("PCBI", "PCFY"), false));
    } else if ef == 2 {
        v.push(r("ČJL", 4, K::C, false));
        v.push(r("MAT", 4, K::C, false));
        v.push(r("AJ", 3, K::S, false));
        v.push(r("DĚ", 2, K::C, false));
        v.push(r("ZE", 2, K::C, false));
        v.push(r("BIO", 2, K::C, false));
        v.push(r("FY", 2, K::C, false));
        v.push(r("OV", 1, K::C, false));
        v.push(r("TV", 2, K::P, false));
        v.push(r("HV", 1, K::C, false));
        v.push(r("DV/VV", 2, K::Str("DV", "VV"), true));
        v.push(r("PCBI/PCFY", 1, K::StrSk("PCBI", "PCFY"), false));
    } else if ef == 3 {
        v.push(r("ČJL", 4, K::C, false));
        v.push(r("MAT", 4, K::C, false));
        v.push(r("AJ", 3, K::S, false));
        v.push(r("DĚ", 2, K::C, false));
        v.push(r("ZE", 1, K::C, false));
        v.push(r("BIO", 2, K::C, false));
        v.push(r("FY", 2, K::C, false));
        v.push(r("CHE", 2, K::C, false));
        v.push(r("OV", 1, K::C, false));
        v.push(r("TV", 2, K::P, false));
        v.push(r("HV", 1, K::C, false));
        v.push(r("DV/VV", 2, K::Str("DV", "VV"), true));
        v.push(r("PCCH/PCFY", 1, K::StrSk("PCCH", "PCFY"), false));
    } else if ef == 4 {
        v.push(r("ČJL", 4, K::C, false));
        v.push(r("MAT", 4, K::C, false));
        v.push(r("AJ", 3, K::S, false));
        v.push(r("DĚ", 2, K::C, false));
        v.push(r("ZE", 2, K::C, false));
        v.push(r("BIO", 2, K::C, false));
        v.push(r("FY", 2, K::C, false));
        v.push(r("CHE", 2, K::C, false));
        v.push(r("OV", 1, K::C, false));
        v.push(r("TV", 2, K::P, false));
        v.push(r("HV", 1, K::C, false));
        v.push(r("VV", 1, K::C, false));
        v.push(r("INF", 1, K::S, false));
        v.push(r("LAT", 2, K::C, false));
        v.push(r("PCBI/PCCH", 1, K::StrSk("PCBI", "PCCH"), false));
    } else if ef == 5 {
        v.push(r("ČJL", 3, K::C, false));
        v.push(r("MAT", 4, K::C, false));
        v.push(r("AJ", 3, K::S, false));
        v.push(r("DĚ", 2, K::C, false));
        v.push(r("ZE", 2, K::C, false));
        v.push(r("ZSV", 1, K::C, false));
        v.push(r("FY", 2, K::C, false));
        v.push(r("CHE", 2, K::C, false));
        v.push(r("BIO", 2, K::C, false));
        v.push(r("INF", 2, K::S, false));
        v.push(r("TV", 2, K::P, false));
        v.push(r("PCBI/PCCH", 1, K::StrSk("PCBI", "PCCH"), false));
    } else if ef == 6 {
        v.push(r("ČJL", 3, K::C, false));
        v.push(r("MAT", 4, K::C, false));
        v.push(r("AJ", 3, K::S, false));
        v.push(r("DĚ", 2, K::C, false));
        v.push(r("ZE", 2, K::C, false));
        v.push(r("ZSV", 2, K::C, false));
        v.push(r("FY", 2, K::C, false));
        v.push(r("CHE", 2, K::C, false));
        v.push(r("BIO", 2, K::C, false));
        v.push(r("INF", 1, K::S, false));
        v.push(r("TV", 2, K::P, false));
        v.push(r("PCFY/PCCH", 1, K::StrSk("PCFY", "PCCH"), false));
    } else if ef == 7 {
        v.push(r("ČJL", 4, K::C, false));
        v.push(r("MAT", 4, K::C, false));
        v.push(r("AJ", 3, K::S, false));
        v.push(r("DĚ", 2, K::C, false));
        v.push(r("ZE", 2, K::C, false));
        v.push(r("ZSV", 2, K::C, false));
        v.push(r("FY", 2, K::C, false));
        v.push(r("CHE", 2, K::C, false));
        v.push(r("BIO", 2, K::C, false));
        v.push(r("TV", 2, K::P, false));
    } else {
        v.push(r("ČJL", 4, K::C, false));
        v.push(r("MAT", 3, K::C, false));
        v.push(r("AJ", 4, K::S, false));
        v.push(r("DĚ", 2, K::C, false));
        v.push(r("ZSV", 2, K::C, false));
        v.push(r("TV", 2, K::P, false));
    }
    proof {
        assert(v@ =~= sablona_spec(ef));
    }
    v
}

fn pol(predmet: &str, ucitel: String) -> (p: Pol)
    ensures
        p.ucitel == ucitel,
        p.predmet@ == predmet@,
{
    Pol { predmet: predmet.to_owned(), ucitel }
}

/// Kapacita volby předmětu: výtvarná a hudební výchova mají jedinou pracovnu (28 míst).
pub open spec fn kapacita_volby(predmet: Seq<char>) -> Option<u32> {
    if predmet == "VV"@ || predmet == "HV"@ {
        Some(28u32)
    } else {
        None
    }
}

/// Volba má dané id, název a předmět a kapacitu podle předmětu.
pub open spec fn volba_je(v: Volba, id: Seq<char>, nazev: Seq<char>, predmet: Seq<char>) -> bool {
    v.id@ == id && v.nazev@ == nazev && v.predmet@ == predmet && v.kapacita == kapacita_volby(predmet)
}

/// Volba; kapacita podle jediné odborné pracovny (PVV, PHV = 28 míst).
fn volba(id: &str, nazev: &str, predmet: &str, ucitel: String) -> (v: Volba)
    ensures
        v.ucitel == ucitel,
        volba_je(v, id@, nazev@, predmet@),
{
    let kapacita = if rovno(predmet, "VV") || rovno(predmet, "HV") { Some(28u32) } else { None };
    Volba { id: id.to_owned(), nazev: nazev.to_owned(), predmet: predmet.to_owned(), ucitel, kapacita }
}

/// Id učitelů.
pub open spec fn ids_ucitelu(u: Seq<Ucitel>) -> Seq<Seq<char>> {
    u.map_values(|x: Ucitel| x.id@)
}

/// Všichni učitelé menu jsou ve sboru.
pub open spec fn menu_ucitele_ok(m: Menu, ids: Seq<Seq<char>>) -> bool {
    forall|k: int| 0 <= k < m.volby@.len() ==> ids.contains((#[trigger] m.volby@[k]).ucitel@)
}

/// Předměty všech voleb menu jsou mezi předměty `ids`.
pub open spec fn predmety_voleb_ok(m: Menu, ids: Seq<Seq<char>>) -> bool {
    forall|k: int| 0 <= k < m.volby@.len() ==> ids.contains((#[trigger] m.volby@[k]).predmet@)
}

/// Předměty voleb výchozích menu (semináře, jazyky, informatika, čeština, výchovy).
pub open spec fn predmety_voleb_spec() -> Seq<Seq<char>> {
    seq!["SMA"@, "SFY"@, "SCHE"@, "SBR"@, "SČD"@, "SLR"@, "SPP"@, "SFAV"@, "SZSV"@, "SAJ"@, "PRG"@, "SEK"@, "SDG"@, "SPCH"@, "SBCH"@, "SZE"@, "NJ2"@, "ŠJ2"@, "FJ2"@, "INF"@, "ČJL"@, "VV"@, "DV"@, "HV"@]
}

/// Předměty voleb výchozích menu jsou mezi výchozími předměty.
proof fn lemma_predmety_voleb(p: Seq<Predmet>)
    requires
        p.map_values(|x: Predmet| udaje_predmetu(x)) == vychozi_predmety_spec(),
    ensures
        forall|t: Seq<char>| #[trigger] predmety_voleb_spec().contains(t) ==> p.map_values(|x: Predmet| x.id@).contains(t),
{
    let ids = p.map_values(|x: Predmet| x.id@);
    assert(vychozi_predmety_spec().len() == 42);
    assert(p.map_values(|x: Predmet| udaje_predmetu(x)).len() == p.len());
    assert forall|i: int| 0 <= i < 42 implies #[trigger] ids[i] == vychozi_predmety_spec()[i].0 by {
        assert(p.map_values(|x: Predmet| udaje_predmetu(x))[i] == udaje_predmetu(p[i]));
    }
    assert forall|t: Seq<char>| #[trigger] predmety_voleb_spec().contains(t) implies ids.contains(t) by {
        let k = choose|k: int| 0 <= k < predmety_voleb_spec().len() && predmety_voleb_spec()[k] == t;
        if k == 0 {
            assert(ids[26] == "SMA"@);
        } else if k == 1 {
            assert(ids[28] == "SFY"@);
        } else if k == 2 {
            assert(ids[29] == "SCHE"@);
        } else if k == 3 {
            assert(ids[32] == "SBR"@);
        } else if k == 4 {
            assert(ids[33] == "SČD"@);
        } else if k == 5 {
            assert(ids[34] == "SLR"@);
        } else if k == 6 {
            assert(ids[35] == "SPP"@);
        } else if k == 7 {
            assert(ids[36] == "SFAV"@);
        } else if k == 8 {
            assert(ids[37] == "SZSV"@);
        } else if k == 9 {
            assert(ids[39] == "SAJ"@);
        } else if k == 10 {
            assert(ids[40] == "PRG"@);
        } else if k == 11 {
            assert(ids[41] == "SEK"@);
        } else if k == 12 {
            assert(ids[27] == "SDG"@);
        } else if k == 13 {
            assert(ids[31] == "SPCH"@);
        } else if k == 14 {
            assert(ids[30] == "SBCH"@);
        } else if k == 15 {
            assert(ids[38] == "SZE"@);
        } else if k == 16 {
            assert(ids[3] == "NJ2"@);
        } else if k == 17 {
            assert(ids[4] == "ŠJ2"@);
        } else if k == 18 {
            assert(ids[5] == "FJ2"@);
        } else if k == 19 {
            assert(ids[14] == "INF"@);
        } else if k == 20 {
            assert(ids[0] == "ČJL"@);
        } else if k == 21 {
            assert(ids[18] == "VV"@);
        } else if k == 22 {
            assert(ids[19] == "DV"@);
        } else if k == 23 {
            assert(ids[17] == "HV"@);
        }
    }
}

/// Menu se semináři septimy má předměty mezi předměty `ids`.
proof fn lemma_seminare_septimy(m: Menu, sem: Seq<&str>, predmety: Seq<Predmet>, ids: Seq<Seq<char>>)
    requires
        sem == seq!["SMA", "SFY", "SCHE", "SBR", "SČD", "SLR", "SPP", "SFAV", "SZSV", "SAJ", "PRG", "SEK", "SDG", "SPCH"],
        m.volby@.len() == sem.len(),
        forall|k: int| 0 <= k < sem.len() ==> volba_je(#[trigger] m.volby@[k], sem[k]@, nazev_predmetu_spec(predmety, sem[k]@), sem[k]@),
        forall|t: Seq<char>| #[trigger] predmety_voleb_spec().contains(t) ==> ids.contains(t),
    ensures
        predmety_voleb_ok(m, ids),
{
    assert forall|k: int| 0 <= k < m.volby@.len() implies ids.contains((#[trigger] m.volby@[k]).predmet@) by {
        assert(volba_je(m.volby@[k], sem[k]@, nazev_predmetu_spec(predmety, sem[k]@), sem[k]@));
        if k == 0 {
            assert(sem[0]@ == "SMA"@);
            assert(predmety_voleb_spec()[0] == "SMA"@);
        } else if k == 1 {
            assert(sem[1]@ == "SFY"@);
            assert(predmety_voleb_spec()[1] == "SFY"@);
        } else if k == 2 {
            assert(sem[2]@ == "SCHE"@);
            assert(predmety_voleb_spec()[2] == "SCHE"@);
        } else if k == 3 {
            assert(sem[3]@ == "SBR"@);
            assert(predmety_voleb_spec()[3] == "SBR"@);
        } else if k == 4 {
            assert(sem[4]@ == "SČD"@);
            assert(predmety_voleb_spec()[4] == "SČD"@);
        } else if k == 5 {
            assert(sem[5]@ == "SLR"@);
            assert(predmety_voleb_spec()[5] == "SLR"@);
        } else if k == 6 {
            assert(sem[6]@ == "SPP"@);
            assert(predmety_voleb_spec()[6] == "SPP"@);
        } else if k == 7 {
            assert(sem[7]@ == "SFAV"@);
            assert(predmety_voleb_spec()[7] == "SFAV"@);
        } else if k == 8 {
            assert(sem[8]@ == "SZSV"@);
            assert(predmety_voleb_spec()[8] == "SZSV"@);
        } else if k == 9 {
            assert(sem[9]@ == "SAJ"@);
            assert(predmety_voleb_spec()[9] == "SAJ"@);
        } else if k == 10 {
            assert(sem[10]@ == "PRG"@);
            assert(predmety_voleb_spec()[10] == "PRG"@);
        } else if k == 11 {
            assert(sem[11]@ == "SEK"@);
            assert(predmety_voleb_spec()[11] == "SEK"@);
        } else if k == 12 {
            assert(sem[12]@ == "SDG"@);
            assert(predmety_voleb_spec()[12] == "SDG"@);
        } else if k == 13 {
            assert(sem[13]@ == "SPCH"@);
            assert(predmety_voleb_spec()[13] == "SPCH"@);
        }
        assert(predmety_voleb_spec().contains(sem[k]@));
    }
}

/// Menu se semináři oktávy má předměty mezi předměty `ids`.
proof fn lemma_seminare_oktavy(m: Menu, sem: Seq<&str>, predmety: Seq<Predmet>, ids: Seq<Seq<char>>)
    requires
        sem == seq!["SMA", "SFY", "SCHE", "SBCH", "SBR", "SČD", "SLR", "SPP", "SFAV", "SZSV", "SAJ", "SZE", "PRG", "SEK", "SDG"],
        m.volby@.len() == sem.len(),
        forall|k: int| 0 <= k < sem.len() ==> volba_je(#[trigger] m.volby@[k], sem[k]@, nazev_predmetu_spec(predmety, sem[k]@), sem[k]@),
        forall|t: Seq<char>| #[trigger] predmety_voleb_spec().contains(t) ==> ids.contains(t),
    ensures
        predmety_voleb_ok(m, ids),
{
    assert forall|k: int| 0 <= k < m.volby@.len() implies ids.contains((#[trigger] m.volby@[k]).predmet@) by {
        assert(volba_je(m.volby@[k], sem[k]@, nazev_predmetu_spec(predmety, sem[k]@), sem[k]@));
        if k == 0 {
            assert(sem[0]@ == "SMA"@);
            assert(predmety_voleb_spec()[0] == "SMA"@);
        } else if k == 1 {
            assert(sem[1]@ == "SFY"@);
            assert(predmety_voleb_spec()[1] == "SFY"@);
        } else if k == 2 {
            assert(sem[2]@ == "SCHE"@);
            assert(predmety_voleb_spec()[2] == "SCHE"@);
        } else if k == 3 {
            assert(sem[3]@ == "SBCH"@);
            assert(predmety_voleb_spec()[14] == "SBCH"@);
        } else if k == 4 {
            assert(sem[4]@ == "SBR"@);
            assert(predmety_voleb_spec()[3] == "SBR"@);
        } else if k == 5 {
            assert(sem[5]@ == "SČD"@);
            assert(predmety_voleb_spec()[4] == "SČD"@);
        } else if k == 6 {
            assert(sem[6]@ == "SLR"@);
            assert(predmety_voleb_spec()[5] == "SLR"@);
        } else if k == 7 {
            assert(sem[7]@ == "SPP"@);
            assert(predmety_voleb_spec()[6] == "SPP"@);
        } else if k == 8 {
            assert(sem[8]@ == "SFAV"@);
            assert(predmety_voleb_spec()[7] == "SFAV"@);
        } else if k == 9 {
            assert(sem[9]@ == "SZSV"@);
            assert(predmety_voleb_spec()[8] == "SZSV"@);
        } else if k == 10 {
            assert(sem[10]@ == "SAJ"@);
            assert(predmety_voleb_spec()[9] == "SAJ"@);
        } else if k == 11 {
            assert(sem[11]@ == "SZE"@);
            assert(predmety_voleb_spec()[15] == "SZE"@);
        } else if k == 12 {
            assert(sem[12]@ == "PRG"@);
            assert(predmety_voleb_spec()[10] == "PRG"@);
        } else if k == 13 {
            assert(sem[13]@ == "SEK"@);
            assert(predmety_voleb_spec()[11] == "SEK"@);
        } else if k == 14 {
            assert(sem[14]@ == "SDG"@);
            assert(predmety_voleb_spec()[12] == "SDG"@);
        }
        assert(predmety_voleb_spec().contains(sem[k]@));
    }
}

/// Menu jazyků má předměty mezi předměty `ids`.
proof fn lemma_jazyky_ok(m: Menu, ids: Seq<Seq<char>>)
    requires
        jazyky_je(m.volby@),
        forall|t: Seq<char>| #[trigger] predmety_voleb_spec().contains(t) ==> ids.contains(t),
    ensures
        predmety_voleb_ok(m, ids),
{
    assert(predmety_voleb_spec()[16] == "NJ2"@);
    assert(predmety_voleb_spec()[17] == "ŠJ2"@);
    assert(predmety_voleb_spec()[18] == "FJ2"@);
    assert(predmety_voleb_spec().contains("NJ2"@));
    assert(predmety_voleb_spec().contains("ŠJ2"@));
    assert(predmety_voleb_spec().contains("FJ2"@));
}

/// Menu výchov (a sekundy) má předměty mezi předměty `ids`.
proof fn lemma_vychovy_ok(m: Menu, ids: Seq<Seq<char>>)
    requires
        forall|t: Seq<char>| #[trigger] predmety_voleb_spec().contains(t) ==> ids.contains(t),
        forall|k: int|
            0 <= k < m.volby@.len() ==> (#[trigger] m.volby@[k]).predmet@ == "VV"@ || m.volby@[k].predmet@ == "DV"@ || m.volby@[k].predmet@
                == "HV"@ || m.volby@[k].predmet@ == "INF"@ || m.volby@[k].predmet@ == "ČJL"@,
    ensures
        predmety_voleb_ok(m, ids),
{
    assert(predmety_voleb_spec()[21] == "VV"@);
    assert(predmety_voleb_spec()[22] == "DV"@);
    assert(predmety_voleb_spec()[23] == "HV"@);
    assert(predmety_voleb_spec()[19] == "INF"@);
    assert(predmety_voleb_spec()[20] == "ČJL"@);
    assert(predmety_voleb_spec().contains("VV"@));
    assert(predmety_voleb_spec().contains("DV"@));
    assert(predmety_voleb_spec().contains("HV"@));
    assert(predmety_voleb_spec().contains("INF"@));
    assert(predmety_voleb_spec().contains("ČJL"@));
}

/// Všichni učitelé struktury jsou ve sboru.
pub open spec fn struktura_ok(s: Struktura, ids: Seq<Seq<char>>) -> bool {
    &&& forall|k: int| 0 <= k < ucitele_struktury(s).len() ==> ids.contains(#[trigger] ucitele_struktury(s)[k])
    &&& match s {
        Struktura::Rozdeleno { a, b } => a@ != b@,
        Struktura::Pohlavi { div, chl } => div@ != chl@,
        _ => true,
    }
}

/// Id `id` je vyloučené (rovná se `krome`).
pub open spec fn vylouceno(krome: Option<&str>, id: Seq<char>) -> bool {
    match krome {
        Some(k) => id == k@,
        None => false,
    }
}

/// Mezi id jsou aspoň dvě různá.
pub open spec fn dve_ruzna(ids: Seq<Seq<char>>) -> bool {
    exists|i: int, j: int| 0 <= i < ids.len() && 0 <= j < ids.len() && #[trigger] ids[i] != #[trigger] ids[j]
}

/// Název předmětu `id` (první předmět s tímto id; neznámý předmět: id).
pub open spec fn nazev_predmetu_spec(predmety: Seq<Predmet>, id: Seq<char>) -> Seq<char> {
    let i = crate::data::index_predmetu(predmety, id);
    if i >= 0 {
        predmety[i].nazev@
    } else {
        id
    }
}

/// Název předmětu podle id (neznámý předmět: id).
fn nazev_predmetu(predmety: &Vec<Predmet>, id: &str) -> (r: String)
    ensures
        r@ == nazev_predmetu_spec(predmety@, id@),
{
    let ghost p = |t: Predmet| t.id@ == id@;
    let mut i: usize = 0;
    while i < predmety.len()
        invariant
            i <= predmety@.len(),
            p == (|t: Predmet| t.id@ == id@),
            forall|j: int| 0 <= j < i ==> !p(#[trigger] predmety@[j]),
        decreases predmety@.len() - i,
    {
        if rovno(predmety[i].id.as_str(), id) {
            proof {
                crate::hledani::lemma_prvni_je(predmety@, p, i as int);
            }
            return predmety[i].nazev.clone();
        }
        i = i + 1;
    }
    proof {
        crate::hledani::lemma_prvni_zadny(predmety@, p);
    }
    id.to_owned()
}

/// Menu seminářů: každý seminář dvouhodinovkou.
fn sem_menu(
    pr: &mut Prirazovac,
    predmety: &Vec<Predmet>,
    id: &str,
    nazev: &str,
    tridy: &[&str],
    seznam: &[&str],
    voleb: u8,
) -> (m: Menu)
    requires
        old(pr).zatez@.len() > 0,
    ensures
        final(pr).ids() == old(pr).ids(),
        final(pr).zatez@.len() == old(pr).zatez@.len(),
        menu_ucitele_ok(m, old(pr).ids()),
        m.id@ == id@,
        m.nazev@ == nazev@,
        crate::data::retezce(m.tridy@) == tridy@.map_values(|x: &str| x@),
        m.volby@.len() == seznam@.len(),
        forall|k: int| 0 <= k < seznam@.len() ==> volba_je(#[trigger] m.volby@[k], seznam@[k]@, nazev_predmetu_spec(predmety@, seznam@[k]@), seznam@[k]@),
        m.hodin_tydne == 2,
        m.dvojhodina,
        m.pocet_voleb == voleb,
{
    let mut volby: Vec<Volba> = Vec::new();
    let mut i: usize = 0;
    while i < seznam.len()
        invariant
            i <= seznam@.len(),
            pr.zatez@.len() > 0,
            pr.zatez@.len() == old(pr).zatez@.len(),
            pr.ids() == old(pr).ids(),
            forall|k: int| 0 <= k < volby@.len() ==> old(pr).ids().contains((#[trigger] volby@[k]).ucitel@),
            volby@.len() == i,
            forall|k: int| 0 <= k < i ==> volba_je(#[trigger] volby@[k], seznam@[k]@, nazev_predmetu_spec(predmety@, seznam@[k]@), seznam@[k]@),
        decreases seznam@.len() - i,
    {
        let s = seznam[i];
        let uc = pr.vyber(s, 4, None);
        let n = nazev_predmetu(predmety, s);
        volby.push(volba(s, n.as_str(), s, uc));
        i = i + 1;
    }
    let t = retezce_z(tridy);
    proof {
        assert(crate::data::retezce(t@) =~= tridy@.map_values(|x: &str| x@));
    }
    Menu {
        id: id.to_owned(),
        nazev: nazev.to_owned(),
        tridy: t,
        volby,
        hodin_tydne: 2,
        dvojhodina: true,
        pocet_voleb: voleb,
    }
}

/// Volby jazyků: němčina, španělština, francouzština.
pub open spec fn jazyky_je(v: Seq<Volba>) -> bool {
    &&& v.len() == 3
    &&& volba_je(v[0], "NJ2"@, "Němčina"@, "NJ2"@)
    &&& volba_je(v[1], "ŠJ2"@, "Španělština"@, "ŠJ2"@)
    &&& volba_je(v[2], "FJ2"@, "Francouzština"@, "FJ2"@)
}

/// Volby druhého a třetího jazyka (němčina, španělština, francouzština).
fn jazyky(pr: &mut Prirazovac, pulhodin: u32) -> (v: Vec<Volba>)
    requires
        old(pr).zatez@.len() > 0,
    ensures
        final(pr).ids() == old(pr).ids(),
        final(pr).zatez@.len() == old(pr).zatez@.len(),
        forall|k: int| 0 <= k < v@.len() ==> old(pr).ids().contains((#[trigger] v@[k]).ucitel@),
        jazyky_je(v@),
{
    let mut v: Vec<Volba> = Vec::new();
    let a = pr.vyber("NJ2", pulhodin, None);
    v.push(volba("NJ2", "Němčina", "NJ2", a));
    let b = pr.vyber("ŠJ2", pulhodin, None);
    v.push(volba("ŠJ2", "Španělština", "ŠJ2", b));
    let c = pr.vyber("FJ2", pulhodin, None);
    v.push(volba("FJ2", "Francouzština", "FJ2", c));
    v
}

/// Nejmenší (efektivní ročník, čtyřleté) mezi známými třídami z prvních `k` tříd menu
/// (osmileté před čtyřletými; při shodě platí dřívější) a zda nějaká byla; jinak (9, ne).
pub open spec fn nejmensi_trida(tridy: Seq<Trida>, mt: Seq<Seq<char>>, k: int) -> (u8, bool, bool)
    decreases k,
{
    if k <= 0 {
        (9u8, false, false)
    } else {
        let p = nejmensi_trida(tridy, mt, k - 1);
        let i = index_tridy(tridy, mt[k - 1]);
        if i >= 0 {
            let x0 = tridy[i].ef_rocnik();
            let x1 = tridy[i].typ == TypStudia::Ctyrlete;
            if !p.2 || x0 < p.0 || (x0 == p.0 && !x1 && p.1) {
                (x0 as u8, x1, true)
            } else {
                p
            }
        } else {
            p
        }
    }
}

/// Klíč řazení menu: nejmenší (efektivní ročník, čtyřleté) tříd menu (bez tříd 9),
/// počet voleb.
fn klic_menu(tridy: &Vec<Trida>, m: &Menu) -> (r: (u8, bool, u8))
    requires
        tridy_platne(tridy@),
    ensures
        r.0 == nejmensi_trida(tridy@, crate::data::retezce(m.tridy@), m.tridy@.len() as int).0,
        r.1 == nejmensi_trida(tridy@, crate::data::retezce(m.tridy@), m.tridy@.len() as int).1,
        r.2 == m.pocet_voleb,
{
    let ghost mt = crate::data::retezce(m.tridy@);
    let mut best: (u8, bool) = (9, false);
    let mut nalezeno = false;
    let mut k: usize = 0;
    while k < m.tridy.len()
        invariant
            k <= m.tridy@.len(),
            tridy_platne(tridy@),
            mt == crate::data::retezce(m.tridy@),
            (best.0, best.1, nalezeno) == nejmensi_trida(tridy@, mt, k as int),
        decreases m.tridy@.len() - k,
    {
        let ghost p = |t: Trida| t.id@ == mt[k as int];
        let mut i: usize = 0;
        while i < tridy.len()
            invariant_except_break
                i <= tridy@.len(),
                k < m.tridy@.len(),
                tridy_platne(tridy@),
                mt == crate::data::retezce(m.tridy@),
                p == (|t: Trida| t.id@ == mt[k as int]),
                forall|j: int| 0 <= j < i ==> !p(#[trigger] tridy@[j]),
                (best.0, best.1, nalezeno) == nejmensi_trida(tridy@, mt, k as int),
            ensures
                i <= tridy@.len(),
                i < tridy@.len() ==> (best.0, best.1, nalezeno) == nejmensi_trida(tridy@, mt, k + 1),
                i == tridy@.len() ==> (best.0, best.1, nalezeno) == nejmensi_trida(tridy@, mt, k as int) && forall|j: int|
                    0 <= j < tridy@.len() ==> !p(#[trigger] tridy@[j]),
            decreases tridy@.len() - i,
        {
            if rovno(tridy[i].id.as_str(), m.tridy[k].as_str()) {
                proof {
                    assert(tridy@[i as int].platna());
                    crate::hledani::lemma_prvni_je(tridy@, p, i as int);
                }
                let x = (tridy[i].efektivni_rocnik(), tridy[i].typ == TypStudia::Ctyrlete);
                if !nalezeno || x.0 < best.0 || (x.0 == best.0 && !x.1 && best.1) {
                    best = x;
                    nalezeno = true;
                }
                break;
            }
            i = i + 1;
        }
        proof {
            if i == tridy@.len() {
                crate::hledani::lemma_prvni_zadny(tridy@, p);
            }
        }
        k = k + 1;
    }
    (best.0, best.1, m.pocet_voleb)
}

/// Klíč `a` menu `ida` je před klíčem `b` menu `idb`: menší ročník, při shodě osmileté před
/// čtyřletým, pak méně voleb, nakonec id abecedně.
pub open spec fn pred_spec(a: (u8, bool, u8), ida: Seq<char>, b: (u8, bool, u8), idb: Seq<char>) -> bool {
    if a.0 != b.0 {
        a.0 < b.0
    } else if a.1 != b.1 {
        !a.1
    } else if a.2 != b.2 {
        a.2 < b.2
    } else {
        crate::text::lex_mensi(ida, idb)
    }
}

/// Je klíč `a` před klíčem `b`?
fn pred(a: (u8, bool, u8), ida: &str, b: (u8, bool, u8), idb: &str) -> (r: bool)
    ensures
        r == pred_spec(a, ida@, b, idb@),
{
    if a.0 != b.0 {
        a.0 < b.0
    } else if a.1 != b.1 {
        !a.1
    } else if a.2 != b.2 {
        a.2 < b.2
    } else {
        porovnej(ida, idb) < 0
    }
}

/// Pořadí klíčů menu je ostré: nic není před sebou a předchůdce předchůdce je předchůdce.
proof fn lemma_pred_ostre(a: (u8, bool, u8), ia: Seq<char>, b: (u8, bool, u8), ib: Seq<char>, c: (u8, bool, u8), ic: Seq<char>)
    ensures
        !pred_spec(a, ia, a, ia),
        pred_spec(a, ia, b, ib) && pred_spec(b, ib, c, ic) ==> pred_spec(a, ia, c, ic),
{
    crate::mapa::lemma_lex_ireflexivni(ia);
    if pred_spec(a, ia, b, ib) && pred_spec(b, ib, c, ic) && a == b && b == c {
        crate::mapa::lemma_lex_tranzitivni(ia, ib, ic);
    }
}

/// Klíč řazení menu (viz `klic_menu`).
pub open spec fn klic_menu_spec(tridy: Seq<Trida>, m: Menu) -> (u8, bool, u8) {
    let x = nejmensi_trida(tridy, crate::data::retezce(m.tridy@), m.tridy@.len() as int);
    (x.0, x.1, m.pocet_voleb)
}

/// Seřadí menu podle (efektivního) ročníku, počtu voleb a id (stabilně).
fn serad_menu(tridy: &Vec<Trida>, menu: Vec<Menu>, Ghost(ids): Ghost<Seq<Seq<char>>>) -> (r: Vec<Menu>)
    requires
        tridy_platne(tridy@),
        forall|k: int| 0 <= k < menu@.len() ==> menu_ucitele_ok(#[trigger] menu@[k], ids),
    ensures
        r@.len() == menu@.len(),
        forall|k: int| 0 <= k < r@.len() ==> menu_ucitele_ok(#[trigger] r@[k], ids),
        r@.to_multiset() == menu@.to_multiset(),
        forall|a: int, b: int| 0 <= a < b < r@.len() ==> !pred_spec(klic_menu_spec(tridy@, #[trigger] r@[b]), r@[b].id@, klic_menu_spec(tridy@, #[trigger] r@[a]), r@[a].id@),
{
    let mut zbyva = menu;
    let mut r: Vec<Menu> = Vec::new();
    let ghost n = zbyva@.len();
    proof {
        assert(r@.to_multiset().add(zbyva@.to_multiset()) =~= menu@.to_multiset()) by {
            broadcast use vstd::seq_lib::group_to_multiset_ensures;
        }
    }
    while zbyva.len() > 0
        invariant
            tridy_platne(tridy@),
            r@.len() + zbyva@.len() == n,
            n == menu@.len(),
            forall|k: int| 0 <= k < zbyva@.len() ==> menu_ucitele_ok(#[trigger] zbyva@[k], ids),
            forall|k: int| 0 <= k < r@.len() ==> menu_ucitele_ok(#[trigger] r@[k], ids),
            r@.to_multiset().add(zbyva@.to_multiset()) == menu@.to_multiset(),
            forall|a: int, b: int| 0 <= a < b < r@.len() ==> !pred_spec(klic_menu_spec(tridy@, #[trigger] r@[b]), r@[b].id@, klic_menu_spec(tridy@, #[trigger] r@[a]), r@[a].id@),
            forall|a: int, b: int| 0 <= a < r@.len() && 0 <= b < zbyva@.len() ==> !pred_spec(klic_menu_spec(tridy@, #[trigger] zbyva@[b]), zbyva@[b].id@, klic_menu_spec(tridy@, #[trigger] r@[a]), r@[a].id@),
        decreases zbyva@.len(),
    {
        let mut nej: usize = 0;
        let mut k_nej = klic_menu(tridy, &zbyva[0]);
        proof {
            lemma_pred_ostre(k_nej, zbyva@[0].id@, k_nej, zbyva@[0].id@, k_nej, zbyva@[0].id@);
        }
        let mut i: usize = 1;
        while i < zbyva.len()
            invariant
                1 <= i <= zbyva@.len(),
                nej < i,
                tridy_platne(tridy@),
                k_nej == klic_menu_spec(tridy@, zbyva@[nej as int]),
                forall|j: int| 0 <= j < i ==> !pred_spec(klic_menu_spec(tridy@, #[trigger] zbyva@[j]), zbyva@[j].id@, k_nej, zbyva@[nej as int].id@),
            decreases zbyva@.len() - i,
        {
            let k = klic_menu(tridy, &zbyva[i]);
            let ghost stary = nej;
            if pred(k, zbyva[i].id.as_str(), k_nej, zbyva[nej].id.as_str()) {
                proof {
                    assert forall|j: int| 0 <= j < i + 1 implies !pred_spec(klic_menu_spec(tridy@, #[trigger] zbyva@[j]), zbyva@[j].id@, k, zbyva@[i as int].id@) by {
                        lemma_pred_ostre(klic_menu_spec(tridy@, zbyva@[j]), zbyva@[j].id@, k, zbyva@[i as int].id@, k_nej, zbyva@[stary as int].id@);
                    }
                }
                nej = i;
                k_nej = k;
            }
            i = i + 1;
        }
        let ghost z0 = zbyva@;
        let ghost r0 = r@;
        let m = zbyva.remove(nej);
        proof {
            assert(menu_ucitele_ok(z0[nej as int], ids));
            assert forall|k: int| 0 <= k < zbyva@.len() implies menu_ucitele_ok(#[trigger] zbyva@[k], ids) by {
                if k < nej {
                    assert(zbyva@[k] == z0[k]);
                } else {
                    assert(zbyva@[k] == z0[k + 1]);
                }
            }
        }
        r.push(m);
        proof {
            broadcast use vstd::seq_lib::group_to_multiset_ensures;
            assert(z0.remove(nej as int).to_multiset() == z0.to_multiset().remove(m));
            assert(r@.to_multiset() == r0.to_multiset().insert(m));
            assert(z0.to_multiset().count(m) > 0);
            assert(r@.to_multiset().add(zbyva@.to_multiset()) =~= menu@.to_multiset());
            assert forall|a: int, b: int| 0 <= a < b < r@.len() implies !pred_spec(klic_menu_spec(tridy@, #[trigger] r@[b]), r@[b].id@, klic_menu_spec(tridy@, #[trigger] r@[a]), r@[a].id@) by {
                if b == r0.len() {
                    assert(r@[b] == z0[nej as int]);
                    assert(r@[a] == r0[a]);
                } else {
                    assert(r@[b] == r0[b] && r@[a] == r0[a]);
                }
            }
            assert forall|a: int, b: int| 0 <= a < r@.len() && 0 <= b < zbyva@.len() implies !pred_spec(klic_menu_spec(tridy@, #[trigger] zbyva@[b]), zbyva@[b].id@, klic_menu_spec(tridy@, #[trigger] r@[a]), r@[a].id@) by {
                let bb = if b < nej { b } else { b + 1 };
                assert(zbyva@[b] == z0[bb]);
                if a == r0.len() {
                    assert(r@[a] == z0[nej as int]);
                } else {
                    assert(r@[a] == r0[a]);
                }
            }
        }
    }
    proof {
        broadcast use vstd::seq_lib::group_to_multiset_ensures;
        assert(zbyva@.to_multiset() =~= vstd::multiset::Multiset::empty());
        assert(r@.to_multiset().add(zbyva@.to_multiset()) =~= r@.to_multiset());
    }
    r
}

/// Id tříd.
pub open spec fn ids_trid(t: Seq<Trida>) -> Seq<Seq<char>> {
    t.map_values(|x: Trida| x.id@)
}

/// Sbor podle tabulky učitelů (bez volna, nejvýš 7 h denně, bez preferencí) a k němu
/// přiřazovač s nulovými úvazky.
fn sbor(seznam: &Vec<(String, String, Vec<String>)>) -> (r: (Vec<Ucitel>, Prirazovac))
    ensures
        r.0@.len() == seznam@.len(),
        r.1.zatez@.len() == seznam@.len(),
        r.1.ids() == ids_ucitelu(r.0@),
        forall|k: int| 0 <= k < seznam@.len() ==> (#[trigger] r.0@[k]).id@ == seznam@[k].0@,
{
    let mut uc: Vec<Ucitel> = Vec::new();
    let mut z: Vec<(String, u32, Vec<String>)> = Vec::new();
    let mut i: usize = 0;
    while i < seznam.len()
        invariant
            i <= seznam@.len(),
            uc@.len() == i,
            z@.len() == i,
            forall|k: int| 0 <= k < i ==> (#[trigger] z@[k]).0@ == uc@[k].id@,
            forall|k: int| 0 <= k < i ==> (#[trigger] uc@[k]).id@ == seznam@[k].0@,
        decreases seznam@.len() - i,
    {
        let id = seznam[i].0.clone();
        uc.push(
            Ucitel {
                id: seznam[i].0.clone(),
                jmeno: seznam[i].1.clone(),
                volno: Vec::new(),
                max_den: 7,
                preferovana_mistnost: None,
                preferovane_tridy: Vec::new(),
            },
        );
        z.push((id, 0, crate::data::kopie_retezcu(&seznam[i].2)));
        i = i + 1;
    }
    let pr = Prirazovac { zatez: z };
    proof {
        assert(pr.ids() =~= ids_ucitelu(uc@));
    }
    (uc, pr)
}

/// Tabulka preferovaných místností: učitel a jeho místnost.
pub open spec fn tabulka_preferenci() -> Seq<(Seq<char>, Seq<char>)> {
    seq![
        ("SAU"@, "PŠJ"@),
        ("FAL"@, "PŠJ"@),
        ("VYS"@, "PFJ"@),
        ("UHR"@, "PNJ"@),
        ("BER"@, "PAJ"@),
        ("LIH"@, "PVV"@),
        ("PALB"@, "PHV"@),
        ("CHOU"@, "PIF"@),
        ("ČER"@, "PCH"@),
        ("TES"@, "PFB"@),
    ]
}

/// Preferovaná místnost, kterou dostane `j`-tý učitel z prvních `k` řádků tabulky: místnost
/// posledního řádku, jehož učitel má (první) index `j`.
pub open spec fn preference_pro(u: Seq<Ucitel>, j: int, k: int) -> Option<Seq<char>>
    decreases k,
{
    if k <= 0 {
        None
    } else if crate::data::index_ucitele(u, tabulka_preferenci()[k - 1].0) == j {
        Some(tabulka_preferenci()[k - 1].1)
    } else {
        preference_pro(u, j, k - 1)
    }
}

/// Učitel `b` je učitel `a`, jen s preferovanou místností podle tabulky (není-li v ní,
/// zůstane jeho).
pub open spec fn s_preferenci(a: Ucitel, b: Ucitel, p: Option<Seq<char>>) -> bool {
    &&& b == (Ucitel { preferovana_mistnost: b.preferovana_mistnost, ..a })
    &&& match p {
        Some(m) => b.preferovana_mistnost.is_some() && b.preferovana_mistnost.unwrap()@ == m,
        None => b.preferovana_mistnost == a.preferovana_mistnost,
    }
}

/// Preferované místnosti některých učitelů (jazykáři, výchovy, informatika, chemie, fyzika).
fn nastav_preferovane(ucitele: &mut Vec<Ucitel>)
    ensures
        ids_ucitelu(final(ucitele)@) == ids_ucitelu(old(ucitele)@),
        final(ucitele)@.len() == old(ucitele)@.len(),
        forall|j: int| 0 <= j < old(ucitele)@.len() ==> s_preferenci(old(ucitele)@[j], #[trigger] final(ucitele)@[j], preference_pro(old(ucitele)@, j, 10)),
{
    let pref: [(&str, &str); 10] = [
        ("SAU", "PŠJ"),
        ("FAL", "PŠJ"),
        ("VYS", "PFJ"),
        ("UHR", "PNJ"),
        ("BER", "PAJ"),
        ("LIH", "PVV"),
        ("PALB", "PHV"),
        ("CHOU", "PIF"),
        ("ČER", "PCH"),
        ("TES", "PFB"),
    ];
    proof {
        assert(pref@.map_values(|x: (&str, &str)| (x.0@, x.1@)) =~= tabulka_preferenci());
    }
    let ghost puvodni = ucitele@;
    let mut k: usize = 0;
    while k < 10
        invariant
            k <= 10,
            ucitele@.len() == puvodni.len(),
            forall|j: int| 0 <= j < puvodni.len() ==> (#[trigger] ucitele@[j]).id@ == puvodni[j].id@,
            pref@.map_values(|x: (&str, &str)| (x.0@, x.1@)) == tabulka_preferenci(),
            forall|j: int| 0 <= j < puvodni.len() ==> s_preferenci(puvodni[j], #[trigger] ucitele@[j], preference_pro(puvodni, j, k as int)),
        decreases 10 - k,
    {
        let (u, m) = pref[k];
        proof {
            assert(tabulka_preferenci()[k as int] == (u@, m@));
        }
        let ghost p = |t: Ucitel| t.id@ == u@;
        let ghost u0 = ucitele@;
        let mut i: usize = 0;
        while i < ucitele.len()
            invariant_except_break
                i <= ucitele@.len(),
                ucitele@ == u0,
                p == (|t: Ucitel| t.id@ == u@),
                forall|j: int| 0 <= j < i ==> !p(#[trigger] puvodni[j]),
            invariant
                ucitele@.len() == puvodni.len(),
                forall|j: int| 0 <= j < puvodni.len() ==> (#[trigger] ucitele@[j]).id@ == puvodni[j].id@,
            ensures
                i < ucitele@.len() ==> crate::data::index_ucitele(puvodni, u@) == i && ucitele@ == u0.update(
                    i as int,
                    Ucitel { preferovana_mistnost: ucitele@[i as int].preferovana_mistnost, ..u0[i as int] },
                ) && ucitele@[i as int].preferovana_mistnost.is_some() && ucitele@[i as int].preferovana_mistnost.unwrap()@ == m@,
                i >= ucitele@.len() ==> (forall|j: int| 0 <= j < puvodni.len() ==> !p(#[trigger] puvodni[j])) && ucitele@ == u0,
            decreases ucitele@.len() - i,
        {
            if rovno(ucitele[i].id.as_str(), u) {
                proof {
                    assert(p(puvodni[i as int]));
                    crate::hledani::lemma_prvni_je(puvodni, p, i as int);
                }
                ucitele[i].preferovana_mistnost = Some(m.to_owned());
                proof {
                    assert(ucitele@ =~= u0.update(
                        i as int,
                        Ucitel { preferovana_mistnost: ucitele@[i as int].preferovana_mistnost, ..u0[i as int] },
                    ));
                }
                break;
            }
            i = i + 1;
        }
        proof {
            if i >= ucitele@.len() {
                crate::hledani::lemma_prvni_zadny(puvodni, p);
            }
        }
        k = k + 1;
    }
    proof {
        assert(ids_ucitelu(ucitele@) =~= ids_ucitelu(puvodni));
    }
}

/// Struktura řádku šablony s přidělenými učiteli (úvazky v půlhodinách).
fn struktura_radku(pr: &mut Prirazovac, k: K, predmet: &str, hodin: u8) -> (s: Struktura)
    requires
        old(pr).zatez@.len() > 0,
        dve_ruzna(old(pr).ids()),
    ensures
        final(pr).ids() == old(pr).ids(),
        final(pr).zatez@.len() == old(pr).zatez@.len(),
        struktura_ok(s, old(pr).ids()),
        struktura_druhu(k, s),
{
    let h: u32 = (hodin as u32) * 2;
    match k {
        K::C => {
            let a = pr.vyber(predmet, h, None);
            let s = Struktura::CelouTridou(a);
            proof {
                assert(ucitele_struktury(s)[0] == a@);
            }
            s
        },
        K::S => {
            let a = pr.vyber(predmet, h, None);
            let b = pr.vyber(predmet, h, Some(a.as_str()));
            let s = Struktura::Rozdeleno { a, b };
            proof {
                assert(ucitele_struktury(s)[0] == a@);
                assert(ucitele_struktury(s)[1] == b@);
            }
            s
        },
        K::P => {
            let div = pr.vyber(predmet, h, None);
            let chl = pr.vyber(predmet, h, Some(div.as_str()));
            let s = Struktura::Pohlavi { div, chl };
            proof {
                assert(ucitele_struktury(s)[0] == div@);
                assert(ucitele_struktury(s)[1] == chl@);
            }
            s
        },
        K::Str(l, sd) => {
            let tl = pr.vyber(l, hodin as u32, None);
            let ts = pr.vyber(sd, hodin as u32, None);
            let s = Struktura::Stridave { l: pol(l, tl), s: pol(sd, ts) };
            proof {
                assert(ucitele_struktury(s)[0] == tl@);
                assert(ucitele_struktury(s)[1] == ts@);
            }
            s
        },
        K::StrSk(p1, p2) => {
            let t1 = pr.vyber(p1, h, None);
            let t2 = pr.vyber(p2, h, Some(t1.as_str()));
            let a = [pol(p1, t1.clone()), pol(p2, t2.clone())];
            let b = [pol(p2, t2), pol(p1, t1)];
            let s = Struktura::StridaveSkupiny { a, b };
            proof {
                assert(ucitele_struktury(s)[0] == t1@);
                assert(ucitele_struktury(s)[1] == t2@);
                assert(ucitele_struktury(s)[2] == t2@);
                assert(ucitele_struktury(s)[3] == t1@);
            }
            s
        },
    }
}

/// Menu třetího jazyka pro osmileté třídy ročníku `r`.
fn menu_3j(tridy: &Vec<Trida>, pr: &mut Prirazovac, r: u8) -> (m: Menu)
    requires
        old(pr).zatez@.len() > 0,
    ensures
        final(pr).ids() == old(pr).ids(),
        final(pr).zatez@.len() == old(pr).zatez@.len(),
        menu_ucitele_ok(m, old(pr).ids()),
        m.id@ == "3j-"@ + crate::text::desitkove(r as nat),
        m.nazev@ == "3. jazyk – "@ + crate::text::desitkove(r as nat) + ". ročník (8leté)"@,
        crate::data::retezce(m.tridy@) == tridy@.filter(|t: Trida| t.typ == TypStudia::Osmilete && t.rocnik == r).map_values(|t: Trida| t.id@),
        jazyky_je(m.volby@),
        m.hodin_tydne == 3,
        !m.dvojhodina,
        m.pocet_voleb == 1,
{
    let ghost pt = |t: Trida| t.typ == TypStudia::Osmilete && t.rocnik == r;
    let mut tr: Vec<String> = Vec::new();
    let mut i: usize = 0;
    while i < tridy.len()
        invariant
            i <= tridy@.len(),
            pt == (|t: Trida| t.typ == TypStudia::Osmilete && t.rocnik == r),
            crate::data::retezce(tr@) == tridy@.take(i as int).filter(pt).map_values(|t: Trida| t.id@),
        decreases tridy@.len() - i,
    {
        proof {
            assert(tridy@.take(i + 1) =~= tridy@.take(i as int).push(tridy@[i as int]));
            tridy@.take(i as int).lemma_filter_push(tridy@[i as int], pt);
        }
        if tridy[i].typ == TypStudia::Osmilete && tridy[i].rocnik == r {
            let ghost t0 = tr@;
            tr.push(tridy[i].id.clone());
            proof {
                assert(crate::data::retezce(tr@) =~= crate::data::retezce(t0).push(tridy@[i as int].id@));
                assert(tridy@.take(i + 1).filter(pt).map_values(|t: Trida| t.id@) =~= tridy@.take(i as int).filter(pt).map_values(|t: Trida| t.id@).push(tridy@[i as int].id@));
            }
        }
        i = i + 1;
    }
    proof {
        assert(tridy@.take(tridy@.len() as int) =~= tridy@);
    }
    let c = crate::text::cislo(r as u64);
    let ai = ["3j-", c.as_str()];
    let an = ["3. jazyk – ", c.as_str(), ". ročník (8leté)"];
    let id = spoj(&ai);
    let nazev = spoj(&an);
    proof {
        reveal_with_fuel(crate::text::spojeni, 4);
        assert(ai@.map_values(|x: &str| x@) =~= seq![ai@[0]@, ai@[1]@]);
        assert(an@.map_values(|x: &str| x@) =~= seq![an@[0]@, an@[1]@, an@[2]@]);
        assert(id@ =~= "3j-"@ + crate::text::desitkove(r as nat));
        assert(nazev@ =~= "3. jazyk – "@ + crate::text::desitkove(r as nat) + ". ročník (8leté)"@);
    }
    Menu {
        id,
        nazev,
        tridy: tr,
        volby: jazyky(pr, 6),
        hodin_tydne: 3,
        dvojhodina: false,
        pocet_voleb: 1,
    }
}

/// Menu druhého jazyka čtyřleté třídy.
fn menu_2j(tr: &Trida, pr: &mut Prirazovac) -> (m: Menu)
    requires
        old(pr).zatez@.len() > 0,
    ensures
        final(pr).ids() == old(pr).ids(),
        final(pr).zatez@.len() == old(pr).zatez@.len(),
        menu_ucitele_ok(m, old(pr).ids()),
        m.id@ == "2j-"@ + tr.id@,
        m.nazev@ == "2. jazyk – "@ + tr.nazev@ + " (4leté, 4 h)"@,
        crate::data::retezce(m.tridy@) == seq![tr.id@],
        jazyky_je(m.volby@),
        m.hodin_tydne == 4,
        !m.dvojhodina,
        m.pocet_voleb == 1,
{
    let mut t: Vec<String> = Vec::new();
    t.push(tr.id.clone());
    let ai = ["2j-", tr.id.as_str()];
    let an = ["2. jazyk – ", tr.nazev.as_str(), " (4leté, 4 h)"];
    let id = spoj(&ai);
    let nazev = spoj(&an);
    proof {
        reveal_with_fuel(crate::text::spojeni, 4);
        assert(ai@.map_values(|x: &str| x@) =~= seq![ai@[0]@, ai@[1]@]);
        assert(an@.map_values(|x: &str| x@) =~= seq![an@[0]@, an@[1]@, an@[2]@]);
        assert(id@ =~= "2j-"@ + tr.id@);
        assert(nazev@ =~= "2. jazyk – "@ + tr.nazev@ + " (4leté, 4 h)"@);
        assert(crate::data::retezce(t@) =~= seq![tr.id@]);
    }
    Menu {
        id,
        nazev,
        tridy: t,
        volby: jazyky(pr, 8),
        hodin_tydne: 4,
        dvojhodina: false,
        pocet_voleb: 1,
    }
}

/// Volitelné výchovy (kvinta: VV/DV, sexta: VV/DV/HV) – dvouhodinovky, jedna volba.
fn menu_vychov(pr: &mut Prirazovac, id: &str, nazev: &str, tridy: &[&str], hudebni: bool) -> (m: Menu)
    requires
        old(pr).zatez@.len() > 0,
    ensures
        final(pr).ids() == old(pr).ids(),
        final(pr).zatez@.len() == old(pr).zatez@.len(),
        menu_ucitele_ok(m, old(pr).ids()),
        m.id@ == id@,
        m.nazev@ == nazev@,
        crate::data::retezce(m.tridy@) == tridy@.map_values(|x: &str| x@),
        m.volby@.len() == if hudebni { 3int } else { 2int },
        volba_je(m.volby@[0], "VV2"@, "Výtvarná výchova"@, "VV"@),
        volba_je(m.volby@[1], "DV2"@, "Dramatická výchova"@, "DV"@),
        hudebni ==> volba_je(m.volby@[2], "HV2"@, "Hudební výchova"@, "HV"@),
        m.hodin_tydne == 2,
        m.dvojhodina,
        m.pocet_voleb == 1,
{
    let mut v: Vec<Volba> = Vec::new();
    let a = pr.vyber("VV", 4, None);
    v.push(volba("VV2", "Výtvarná výchova", "VV", a));
    let b = pr.vyber("DV", 4, None);
    v.push(volba("DV2", "Dramatická výchova", "DV", b));
    if hudebni {
        let c = pr.vyber("HV", 4, None);
        v.push(volba("HV2", "Hudební výchova", "HV", c));
    }
    let t = retezce_z(tridy);
    proof {
        assert(crate::data::retezce(t@) =~= tridy@.map_values(|x: &str| x@));
    }
    Menu {
        id: id.to_owned(),
        nazev: nazev.to_owned(),
        tridy: t,
        volby: v,
        hodin_tydne: 2,
        dvojhodina: true,
        pocet_voleb: 1,
    }
}

/// Sekunda: informatika nebo čeština navíc.
fn menu_sekundy(pr: &mut Prirazovac) -> (m: Menu)
    requires
        old(pr).zatez@.len() > 0,
    ensures
        final(pr).ids() == old(pr).ids(),
        final(pr).zatez@.len() == old(pr).zatez@.len(),
        menu_ucitele_ok(m, old(pr).ids()),
        m.id@ == "sek-volba"@,
        m.nazev@ == "Sekunda: informatika / čeština"@,
        crate::data::retezce(m.tridy@) == seq!["sekunda"@],
        m.volby@.len() == 2,
        volba_je(m.volby@[0], "INF+"@, "Informatika"@, "INF"@),
        volba_je(m.volby@[1], "ČJL+"@, "Čeština"@, "ČJL"@),
        m.hodin_tydne == 2,
        !m.dvojhodina,
        m.pocet_voleb == 1,
{
    let mut v: Vec<Volba> = Vec::new();
    let a = pr.vyber("INF", 4, None);
    v.push(volba("INF+", "Informatika", "INF", a));
    let b = pr.vyber("ČJL", 4, None);
    v.push(volba("ČJL+", "Čeština", "ČJL", b));
    Menu {
        id: "sek-volba".to_owned(),
        nazev: "Sekunda: informatika / čeština".to_owned(),
        tridy: {
            let a = ["sekunda"];
            let t = retezce_z(&a);
            proof {
                assert(crate::data::retezce(t@) =~= seq!["sekunda"@]);
            }
            t
        },
        volby: v,
        hodin_tydne: 2,
        dvojhodina: false,
        pocet_voleb: 1,
    }
}

/// Id výchozích menu: volba sekundy, semináře septimy a oktávy, jazyky ročníků 3–8
/// osmiletého studia, jazyky čtyřletých tříd (v pořadí tříd) a výchovy kvinty a sexty.
pub open spec fn id_vychozich_menu(tridy: Seq<Trida>) -> Seq<Seq<char>> {
    seq!["sek-volba"@, "sem-7"@, "sem-8"@] + Seq::new(6, |i: int| "3j-"@ + crate::text::desitkove((i + 3) as nat)) + tridy.filter(
        ctyrleta(),
    ).map_values(id_jazyka()) + seq!["vol-5"@, "vol-6"@]
}

/// Menu mají právě id výchozích menu (každé id některé menu a počet souhlasí).
pub open spec fn menu_vychozi(tridy: Seq<Trida>, menu: Seq<Menu>) -> bool {
    &&& menu.len() == id_vychozich_menu(tridy).len()
    &&& forall|w: int| 0 <= w < menu.len() ==> id_vychozich_menu(tridy).contains(#[trigger] menu[w].id@)
    &&& forall|x: Seq<char>| #[trigger] id_vychozich_menu(tridy).contains(x) ==> exists|w: int| 0 <= w < menu.len() && menu[w].id@ == x
}

/// Třída čtyřletého studia.
pub open spec fn ctyrleta() -> spec_fn(Trida) -> bool {
    |t: Trida| t.typ == TypStudia::Ctyrlete
}

/// Id menu jazyků čtyřleté třídy.
pub open spec fn id_jazyka() -> spec_fn(Trida) -> Seq<char> {
    |t: Trida| "2j-"@ + t.id@
}

/// Id menu.
pub open spec fn id_menu() -> spec_fn(Menu) -> Seq<char> {
    |m: Menu| m.id@
}

/// Struktura výuky odpovídá druhu řádku šablony (u střídání i předměty týdnů či skupin).
pub open spec fn struktura_druhu(k: K, s: Struktura) -> bool {
    match k {
        K::C => s is CelouTridou,
        K::S => s is Rozdeleno,
        K::P => s is Pohlavi,
        K::Str(l, sd) => match s {
            Struktura::Stridave { l: a, s: b } => a.predmet@ == l@ && b.predmet@ == sd@,
            _ => false,
        },
        K::StrSk(p1, p2) => match s {
            Struktura::StridaveSkupiny { a, b } => a[0].predmet@ == p1@ && a[1].predmet@ == p2@ && b[0].predmet@ == p2@
                && b[1].predmet@ == p1@,
            _ => false,
        },
    }
}

/// Řádek plánu vznikl z řádku šablony pro třídu `t`.
pub open spec fn radek_ze_sablony(t: Trida, rad: Radek, p: PlanovaHodina) -> bool {
    &&& p.trida@ == t.id@
    &&& p.predmet@ == rad.0@
    &&& p.hodin == rad.1
    &&& p.dvoj == rad.3
    &&& struktura_druhu(rad.2, p.struktura)
}

/// Plán tvoří za sebou řádky šablon prvních `i` tříd (šablona podle efektivního ročníku).
pub open spec fn plan_ze_sablon(tridy: Seq<Trida>, i: int, plan: Seq<PlanovaHodina>) -> bool
    decreases i,
{
    if i <= 0 {
        plan.len() == 0
    } else {
        let sab = sablona_spec(tridy[i - 1].ef_rocnik() as u8);
        let n = plan.len() - sab.len();
        &&& n >= 0
        &&& plan_ze_sablon(tridy, i - 1, plan.take(n))
        &&& forall|j: int| 0 <= j < sab.len() ==> #[trigger] radek_ze_sablony(tridy[i - 1], sab[j], plan[n + j])
    }
}

/// Výchozí škola (třídy, místnosti, učitelé, předměty, učební plán) a menu voleb.
/// Učitelé se přidělují postupně – nejdřív semináře, pak volitelné předměty, nakonec
/// učební plán – vždy ten s aprobací a nejmenším dosavadním úvazkem.
pub fn vychozi_skola_a_menu() -> (r: (Skola, Vec<Menu>))
    ensures
        r.0.tridy@.len() == 17,
        tridy_platne(r.0.tridy@),
        r.0.mistnosti@.len() == 39,
        r.0.ucitele@.len() == 42,
        r.0.predmety@.len() == 42,
        forall|k: int|
            0 <= k < r.0.plan@.len() ==> struktura_ok(
                (#[trigger] r.0.plan@[k]).struktura,
                ids_ucitelu(r.0.ucitele@),
            ) && ids_trid(r.0.tridy@).contains(r.0.plan@[k].trida@),
        forall|k: int| 0 <= k < r.1@.len() ==> menu_ucitele_ok(#[trigger] r.1@[k], ids_ucitelu(r.0.ucitele@)),
        plan_ze_sablon(r.0.tridy@, r.0.tridy@.len() as int, r.0.plan@),
        menu_vychozi(r.0.tridy@, r.1@),
        r.0.tridy@.map_values(|t: Trida| udaje_tridy(t)) == vychozi_tridy_spec(),
        forall|k: int| 0 <= k < r.0.tridy@.len() ==> (#[trigger] r.0.tridy@[k]).omezeni_prepsat is None,
        forall|k: int|
            0 <= k < r.0.tridy@.len() ==> udaje_mistnosti(#[trigger] r.0.mistnosti@[k]) == (r.0.tridy@[k].kmenova@, "kmenová "@
                + r.0.tridy@[k].nazev@, 30u32, true),
        r.0.mistnosti@.subrange(17, 39).map_values(|m: Mistnost| udaje_mistnosti(m)) == odborne_mistnosti_spec(),
        r.0.predmety@.map_values(|p: Predmet| udaje_predmetu(p)) == vychozi_predmety_spec(),
        forall|k: int| 0 <= k < r.1@.len() ==> predmety_voleb_ok(#[trigger] r.1@[k], r.0.predmety@.map_values(|p: Predmet| p.id@)),
{
    let tridy = vychozi_tridy();
    let mistnosti = vychozi_mistnosti(&tridy);
    let predmety = vychozi_predmety();
    let ghost idsp = predmety@.map_values(|p: Predmet| p.id@);
    proof {
        lemma_predmety_voleb(predmety@);
    }
    let seznam = vychozi_ucitele();
    let (mut ucitele, mut pr) = sbor(&seznam);
    let ghost uc0 = ucitele@;
    nastav_preferovane(&mut ucitele);
    let ghost ids = ids_ucitelu(ucitele@);
    proof {
        reveal_strlit("SOJ");
        reveal_strlit("ŠAF");
        assert(ids == ids_ucitelu(uc0));
        assert(ids[0] == "SOJ"@ && ids[1] == "ŠAF"@);
        assert(ids[0][0] != ids[1][0]);
        assert(dve_ruzna(ids));
    }

    // Semináře se známým vyučujícím – přiřadit jako první.
    let mut menu: Vec<Menu> = Vec::new();
    let sem7 = ["SMA", "SFY", "SCHE", "SBR", "SČD", "SLR", "SPP", "SFAV", "SZSV", "SAJ", "PRG", "SEK", "SDG", "SPCH"];
    let sem8 = ["SMA", "SFY", "SCHE", "SBCH", "SBR", "SČD", "SLR", "SPP", "SFAV", "SZSV", "SAJ", "SZE", "PRG", "SEK", "SDG"];
    let m7 = sem_menu(&mut pr, &predmety, "sem-7", "Semináře septima (3 × 2 h)", &["septimaA", "septimaB", "3A"], &sem7, 3);
    proof {
        assert(sem7@ =~= seq!["SMA", "SFY", "SCHE", "SBR", "SČD", "SLR", "SPP", "SFAV", "SZSV", "SAJ", "PRG", "SEK", "SDG", "SPCH"]);
        lemma_seminare_septimy(m7, sem7@, predmety@, idsp);
    }
    menu.push(m7);
    let m8 = sem_menu(&mut pr, &predmety, "sem-8", "Semináře oktáva (6 × 2 h)", &["oktavaA", "oktavaB", "4A"], &sem8, 6);
    proof {
        assert(sem8@ =~= seq!["SMA", "SFY", "SCHE", "SBCH", "SBR", "SČD", "SLR", "SPP", "SFAV", "SZSV", "SAJ", "SZE", "PRG", "SEK", "SDG"]);
        lemma_seminare_oktavy(m8, sem8@, predmety@, idsp);
    }
    menu.push(m8);
    // Volitelné předměty
    let sek = menu_sekundy(&mut pr);
    proof {
        lemma_vychovy_ok(sek, idsp);
    }
    let ghost m78 = menu@;
    menu.insert(0, sek);
    proof {
        assert forall|k: int| 0 <= k < menu@.len() implies predmety_voleb_ok(#[trigger] menu@[k], idsp) by {
            if k == 0 {
                assert(menu@[0] == sek);
            } else {
                assert(menu@[k] == m78[k - 1]);
            }
        }
    }
    let ghost a0 = seq!["sek-volba"@, "sem-7"@, "sem-8"@];
    let ghost b0 = Seq::new(6, |i: int| "3j-"@ + crate::text::desitkove((i + 3) as nat));
    proof {
        assert(menu@.map_values(id_menu()) =~= a0);
    }
    let mut r: u8 = 3;
    while r <= 8
        invariant
            3 <= r <= 9,
            pr.zatez@.len() == 42,
            pr.ids() == ids,
            menu@.len() == 3 + (r - 3),
            forall|k: int| 0 <= k < menu@.len() ==> menu_ucitele_ok(#[trigger] menu@[k], ids),
            forall|k: int| 0 <= k < menu@.len() ==> predmety_voleb_ok(#[trigger] menu@[k], idsp),
            forall|t: Seq<char>| #[trigger] predmety_voleb_spec().contains(t) ==> idsp.contains(t),
            menu@.map_values(id_menu()) == a0 + b0.take(r - 3),
            a0 == seq!["sek-volba"@, "sem-7"@, "sem-8"@],
            b0 == Seq::new(6, |i: int| "3j-"@ + crate::text::desitkove((i + 3) as nat)),
        decreases 9 - r,
    {
        let m = menu_3j(&tridy, &mut pr, r);
        let ghost m0 = menu@;
        proof {
            lemma_jazyky_ok(m, idsp);
        }
        menu.push(m);
        proof {
            assert forall|k: int| 0 <= k < menu@.len() implies predmety_voleb_ok(#[trigger] menu@[k], idsp) by {
                if k < m0.len() {
                    assert(menu@[k] == m0[k]);
                }
            }
            let ghost cil = a0 + b0.take(r + 1 - 3);
            let ghost pred = a0 + b0.take(r - 3);
            assert(m0.map_values(id_menu()) == pred);
            assert(b0[r - 3] == "3j-"@ + crate::text::desitkove(r as nat));
            assert forall|k: int| 0 <= k < menu@.len() implies #[trigger] menu@.map_values(id_menu())[k] == cil[k] by {
                if k < m0.len() {
                    assert(menu@[k] == m0[k]);
                    assert(m0.map_values(id_menu())[k] == pred[k]);
                    if k < 3 {
                        assert(cil[k] == a0[k] && pred[k] == a0[k]);
                    } else {
                        assert(cil[k] == b0[k - 3] && pred[k] == b0[k - 3]);
                    }
                } else {
                    assert(menu@[k] == m);
                    assert(cil[k] == b0[r - 3]);
                }
            }
            assert(menu@.map_values(id_menu()) =~= cil);
        }
        r = r + 1;
    }
    let mut i: usize = 0;
    while i < tridy.len()
        invariant
            i <= tridy@.len(),
            tridy@.len() == 17,
            pr.zatez@.len() == 42,
            pr.ids() == ids,
            menu@.len() <= 9 + i,
            forall|k: int| 0 <= k < menu@.len() ==> menu_ucitele_ok(#[trigger] menu@[k], ids),
            forall|k: int| 0 <= k < menu@.len() ==> predmety_voleb_ok(#[trigger] menu@[k], idsp),
            forall|t: Seq<char>| #[trigger] predmety_voleb_spec().contains(t) ==> idsp.contains(t),
            menu@.map_values(id_menu()) == a0 + b0 + tridy@.take(i as int).filter(ctyrleta()).map_values(id_jazyka()),
            a0 == seq!["sek-volba"@, "sem-7"@, "sem-8"@],
            b0 == Seq::new(6, |i: int| "3j-"@ + crate::text::desitkove((i + 3) as nat)),
        decreases tridy@.len() - i,
    {
        let ghost m0 = menu@;
        proof {
            assert(tridy@.take(i + 1) =~= tridy@.take(i as int).push(tridy@[i as int]));
            tridy@.take(i as int).lemma_filter_push(tridy@[i as int], ctyrleta());
        }
        if tridy[i].typ == TypStudia::Ctyrlete {
            let m = menu_2j(&tridy[i], &mut pr);
            proof {
                lemma_jazyky_ok(m, idsp);
            }
            menu.push(m);
            proof {
                assert forall|k: int| 0 <= k < menu@.len() implies predmety_voleb_ok(#[trigger] menu@[k], idsp) by {
                    if k < m0.len() {
                        assert(menu@[k] == m0[k]);
                    }
                }
                let ghost f0 = tridy@.take(i as int).filter(ctyrleta());
                assert(tridy@.take(i + 1).filter(ctyrleta()) == f0.push(tridy@[i as int]));
                let ghost pred = a0 + b0 + f0.map_values(id_jazyka());
                let ghost cil = a0 + b0 + f0.push(tridy@[i as int]).map_values(id_jazyka());
                assert(m0.map_values(id_menu()) == pred);
                assert(m0.map_values(id_menu()).len() == m0.len());
                assert(a0.len() == 3 && b0.len() == 6);
                assert(pred.len() == 9 + f0.len());
                assert(cil.len() == 10 + f0.len());
                assert forall|k: int| 0 <= k < menu@.len() implies #[trigger] menu@.map_values(id_menu())[k] == cil[k] by {
                    if k < m0.len() {
                        assert(menu@[k] == m0[k]);
                        assert(m0.map_values(id_menu())[k] == pred[k]);
                        if k >= 9 {
                            assert(k - 9 < f0.len());
                            assert(f0.push(tridy@[i as int])[k - 9] == f0[k - 9]);
                        }
                    } else {
                        assert(menu@[k] == m);
                    }
                }
                assert(menu@.map_values(id_menu()) =~= cil);
            }
        } else {
            proof {
                assert(tridy@.take(i + 1).filter(ctyrleta()) == tridy@.take(i as int).filter(ctyrleta()));
            }
        }
        i = i + 1;
    }
    let m5 = menu_vychov(&mut pr, "vol-5", "Kvinta: výtvarka / dramatka", &["kvintaA", "kvintaB", "1A"], false);
    let ghost m04 = menu@;
    menu.push(m5);
    let m6 = menu_vychov(&mut pr, "vol-6", "Sexta: výtvarka / dramatka / hudebka", &["sextaA", "sextaB", "2A"], true);
    menu.push(m6);
    proof {
        lemma_vychovy_ok(m5, idsp);
        lemma_vychovy_ok(m6, idsp);
        assert forall|k: int| 0 <= k < menu@.len() implies predmety_voleb_ok(#[trigger] menu@[k], idsp) by {
            if k < m04.len() {
                assert(menu@[k] == m04[k]);
            } else if k == m04.len() {
                assert(menu@[k] == m5);
            } else {
                assert(menu@[k] == m6);
            }
        }
    }
    proof {
        assert(tridy@.take(tridy@.len() as int) =~= tridy@);
        assert(menu@.map_values(id_menu()) =~= id_vychozich_menu(tridy@));
    }
    let ghost m_pred = menu@;
    let menu = serad_menu(&tridy, menu, Ghost(ids));
    proof {
        broadcast use vstd::seq_lib::group_to_multiset_ensures;
        let ii = id_vychozich_menu(tridy@);
        assert forall|w: int| 0 <= w < menu@.len() implies ii.contains(#[trigger] menu@[w].id@) by {
            assert(menu@.contains(menu@[w]));
            assert(menu@.to_multiset().count(menu@[w]) > 0);
            assert(m_pred.contains(menu@[w]));
            let k = choose|k: int| 0 <= k < m_pred.len() && m_pred[k] == menu@[w];
            assert(m_pred.map_values(id_menu())[k] == ii[k]);
        }
        assert forall|x: Seq<char>| #[trigger] ii.contains(x) implies exists|w: int| 0 <= w < menu@.len() && menu@[w].id@ == x by {
            let k = choose|k: int| 0 <= k < ii.len() && ii[k] == x;
            assert(m_pred.map_values(id_menu())[k] == x);
            assert(m_pred.contains(m_pred[k]));
            assert(m_pred.to_multiset().count(m_pred[k]) > 0);
            assert(menu@.contains(m_pred[k]));
            let w = choose|w: int| 0 <= w < menu@.len() && menu@[w] == m_pred[k];
        }
        assert forall|w: int| 0 <= w < menu@.len() implies predmety_voleb_ok(#[trigger] menu@[w], idsp) by {
            assert(menu@.contains(menu@[w]));
            assert(menu@.to_multiset().count(menu@[w]) > 0);
            assert(m_pred.contains(menu@[w]));
            let k = choose|k: int| 0 <= k < m_pred.len() && m_pred[k] == menu@[w];
        }
    }

    // Učební plán (až po volitelných – úvazky se vyrovnají i s jazyky a semináři).
    let mut plan: Vec<PlanovaHodina> = Vec::new();
    let mut i: usize = 0;
    while i < tridy.len()
        invariant
            i <= tridy@.len(),
            tridy_platne(tridy@),
            pr.zatez@.len() == 42,
            pr.ids() == ids,
            dve_ruzna(ids),
            forall|k: int|
                0 <= k < plan@.len() ==> struktura_ok((#[trigger] plan@[k]).struktura, ids)
                    && ids_trid(tridy@).contains(plan@[k].trida@),
            plan_ze_sablon(tridy@, i as int, plan@),
            menu_vychozi(tridy@, menu@),
        decreases tridy@.len() - i,
    {
        proof {
            assert(tridy@[i as int].platna());
            assert(ids_trid(tridy@)[i as int] == tridy@[i as int].id@);
        }
        let sab = sablona(tridy[i].efektivni_rocnik());
        let ghost p0 = plan@;
        let mut j: usize = 0;
        while j < sab.len()
            invariant
                i < tridy@.len(),
                j <= sab@.len(),
                pr.zatez@.len() == 42,
                pr.ids() == ids,
                dve_ruzna(ids),
                ids_trid(tridy@).contains(tridy@[i as int].id@),
                forall|k: int|
                    0 <= k < plan@.len() ==> struktura_ok((#[trigger] plan@[k]).struktura, ids)
                        && ids_trid(tridy@).contains(plan@[k].trida@),
                sab@ == sablona_spec(tridy@[i as int].ef_rocnik() as u8),
                plan_ze_sablon(tridy@, i as int, p0),
                menu_vychozi(tridy@, menu@),
                plan@.len() == p0.len() + j,
                plan@.take(p0.len() as int) == p0,
                forall|jj: int| 0 <= jj < j ==> #[trigger] radek_ze_sablony(tridy@[i as int], sab@[jj], plan@[p0.len() + jj]),
            decreases sab@.len() - j,
        {
            let (predmet, hodin, k, dvoj) = sab[j];
            let struktura = struktura_radku(&mut pr, k, predmet, hodin);
            let ghost pj = plan@;
            plan.push(
                PlanovaHodina { trida: tridy[i].id.clone(), predmet: predmet.to_owned(), hodin, struktura, dvoj },
            );
            proof {
                assert(plan@.take(p0.len() as int) =~= p0) by {
                    assert forall|x: int| 0 <= x < p0.len() implies plan@.take(p0.len() as int)[x] == p0[x] by {
                        assert(pj.take(p0.len() as int)[x] == p0[x]);
                    }
                }
                assert forall|jj: int| 0 <= jj < j + 1 implies #[trigger] radek_ze_sablony(tridy@[i as int], sab@[jj], plan@[p0.len() + jj]) by {
                    if jj < j {
                        assert(plan@[p0.len() + jj] == pj[p0.len() + jj]);
                    }
                }
            }
            j = j + 1;
        }
        proof {
            assert(plan@.take(plan@.len() - sab@.len()) == p0);
            assert(plan_ze_sablon(tridy@, i + 1, plan@));
        }
        i = i + 1;
    }
    let skola = Skola { tridy, mistnosti, ucitele, predmety, plan, nastaveni: Nastaveni::default() };
    (skola, menu)
}

/// Odhad velikosti třídy v ukázkových datech (20–28 žáků).
pub open spec fn odhad_spec(t: Trida) -> nat {
    match t.typ {
        TypStudia::Osmilete => if 1 <= t.rocnik <= 3 {
            28
        } else if 4 <= t.rocnik <= 5 {
            26
        } else if t.rocnik == 6 {
            25
        } else if t.rocnik == 7 {
            24
        } else {
            20
        },
        TypStudia::Ctyrlete => if t.rocnik == 1 || t.rocnik == 2 {
            28
        } else if t.rocnik == 3 {
            24
        } else {
            20
        },
    }
}

/// Velikost tříd v ukázkových datech (odhad).
fn odhad_velikosti(t: &Trida) -> (r: usize)
    ensures
        r == odhad_spec(*t),
{
    match t.typ {
        TypStudia::Osmilete => if 1 <= t.rocnik && t.rocnik <= 3 {
            28
        } else if 4 <= t.rocnik && t.rocnik <= 5 {
            26
        } else if t.rocnik == 6 {
            25
        } else if t.rocnik == 7 {
            24
        } else {
            20
        },
        TypStudia::Ctyrlete => if t.rocnik == 1 || t.rocnik == 2 {
            28
        } else if t.rocnik == 3 {
            24
        } else {
            20
        },
    }
}

/// Součet odhadů velikosti prvních `n` tříd.
pub open spec fn soucet_odhadu(tridy: Seq<Trida>, n: int) -> nat
    decreases n,
{
    if n <= 0 {
        0
    } else {
        soucet_odhadu(tridy, n - 1) + odhad_spec(tridy[n - 1])
    }
}

proof fn lemma_soucet_odhadu(tridy: Seq<Trida>, n: int)
    requires
        0 <= n,
    ensures
        soucet_odhadu(tridy, n) <= 30 * n,
    decreases n,
{
    if n > 0 {
        lemma_soucet_odhadu(tridy, n - 1);
    }
}

/// Pohlaví `i`-tého zástupného žáka (střídavě dívka, chlapec).
pub open spec fn pohlavi_zastupce(i: int) -> Pohlavi {
    if i % 2 == 0 {
        Pohlavi::D
    } else {
        Pohlavi::CH
    }
}

/// Jméno `i`-tého zástupného žáka: „Žákyně 01“, „Žák 02“ …
pub open spec fn jmeno_zastupce(i: int) -> Seq<char> {
    if i % 2 == 0 {
        "Žákyně "@ + dvoumistne((i + 1) as nat)
    } else {
        "Žák "@ + dvoumistne((i + 1) as nat)
    }
}

/// Žák je `i`-tý zástupný žák třídy `t` s id `id`.
pub open spec fn je_zastupce(s: Student, t: Trida, i: int, id: int) -> bool {
    &&& s.id == id
    &&& s.jmeno@ == jmeno_zastupce(i)
    &&& s.trida@ == t.id@
    &&& s.pohlavi == pohlavi_zastupce(i)
    &&& s.status == StavStudenta::Aktivni
}

/// Týž žák: stejné id, jméno, třída, pohlaví a stav.
pub open spec fn stejna_identita(a: Student, b: Student) -> bool {
    a.id == b.id && a.jmeno@ == b.jmeno@ && a.trida@ == b.trida@ && a.pohlavi == b.pohlavi && a.status == b.status
}

/// Zástupný žák třídy.
fn zastupce(t: &Trida, i: usize, id: u32) -> (s: Student)
    requires
        i < 99,
    ensures
        je_zastupce(s, *t, i as int, id as int),
        s.volby.dobre(),
        s.volby.polozky@.len() == 0,
{
    let c = cislo2((i + 1) as u64);
    let (mut jmeno, pohlavi) = if i % 2 == 0 {
        ("Žákyně ".to_owned(), Pohlavi::D)
    } else {
        ("Žák ".to_owned(), Pohlavi::CH)
    };
    pripoj(&mut jmeno, c.as_str());
    Student {
        id,
        jmeno,
        trida: t.id.clone(),
        skupina_aj: SkupinaAj::A,
        pohlavi,
        volby: Mapa::new(),
        status: StavStudenta::Aktivni,
    }
}

/// Zástupní žáci pro ukázková data („Žákyně 01“, „Žák 02“ …) s rozdělením 15:15 a
/// doplněnými volbami, aby šel rozvrh hned vygenerovat.
pub fn zastupni_zaci(skola: &Skola, rok: &mut SkolniRok)
    requires
        old(rok).dalsi_id + 30 * skola.tridy@.len() < u32::MAX,
        510 * (old(rok).studenti@.len() + 30 * skola.tridy@.len()) + 255 < usize::MAX,
        volby_platne(old(rok).studenti@),
    ensures
        final(rok).menu@ == old(rok).menu@,
        final(rok).label@ == old(rok).label@,
        final(rok).dalsi_id == old(rok).dalsi_id + soucet_odhadu(skola.tridy@, skola.tridy@.len() as int),
        final(rok).studenti@.len() == old(rok).studenti@.len() + soucet_odhadu(
            skola.tridy@,
            skola.tridy@.len() as int,
        ),
        forall|j: int|
            0 <= j < old(rok).studenti@.len() ==> stejna_identita(#[trigger] old(rok).studenti@[j], final(rok).studenti@[j]),
        forall|t: int, i: int|
            0 <= t < skola.tridy@.len() && 0 <= i < odhad_spec(skola.tridy@[t]) ==> je_zastupce(
                #[trigger] final(rok).studenti@[old(rok).studenti@.len() + soucet_odhadu(skola.tridy@, t) + i],
                skola.tridy@[t],
                i,
                old(rok).dalsi_id + soucet_odhadu(skola.tridy@, t) + i,
            ),
        volby_platne(final(rok).studenti@),
{
    let ghost st0 = rok.studenti@;
    let ghost d0 = rok.dalsi_id;
    let ghost tridy = skola.tridy@;
    let mut t: usize = 0;
    while t < skola.tridy.len()
        invariant
            t <= tridy.len(),
            tridy == skola.tridy@,
            d0 + 30 * tridy.len() < u32::MAX,
            rok.menu@ == old(rok).menu@,
            rok.label@ == old(rok).label@,
            rok.dalsi_id == d0 + soucet_odhadu(tridy, t as int),
            rok.studenti@.len() == st0.len() + soucet_odhadu(tridy, t as int),
            forall|j: int| 0 <= j < st0.len() ==> stejna_identita(#[trigger] st0[j], rok.studenti@[j]),
            forall|t2: int, i: int|
                0 <= t2 < t && 0 <= i < odhad_spec(tridy[t2]) ==> je_zastupce(
                    #[trigger] rok.studenti@[st0.len() + soucet_odhadu(tridy, t2) + i],
                    tridy[t2],
                    i,
                    d0 + soucet_odhadu(tridy, t2) + i,
                ),
            volby_platne(rok.studenti@),
        decreases tridy.len() - t,
    {
        let tr = &skola.tridy[t];
        let n = odhad_velikosti(tr);
        proof {
            lemma_soucet_odhadu(tridy, t as int);
            lemma_soucet_odhadu(tridy, t + 1);
        }
        let mut i: usize = 0;
        while i < n
            invariant
                i <= n,
                n == odhad_spec(tridy[t as int]),
                t < tridy.len(),
                *tr == tridy[t as int],
                soucet_odhadu(tridy, t + 1) <= 30 * (t + 1),
                d0 + 30 * tridy.len() < u32::MAX,
                rok.menu@ == old(rok).menu@,
                rok.label@ == old(rok).label@,
                rok.dalsi_id == d0 + soucet_odhadu(tridy, t as int) + i,
                rok.studenti@.len() == st0.len() + soucet_odhadu(tridy, t as int) + i,
                forall|j: int| 0 <= j < st0.len() ==> stejna_identita(#[trigger] st0[j], rok.studenti@[j]),
                forall|t2: int, i2: int|
                    0 <= t2 < t && 0 <= i2 < odhad_spec(tridy[t2]) ==> je_zastupce(
                        #[trigger] rok.studenti@[st0.len() + soucet_odhadu(tridy, t2) + i2],
                        tridy[t2],
                        i2,
                        d0 + soucet_odhadu(tridy, t2) + i2,
                    ),
                forall|i2: int|
                    0 <= i2 < i ==> je_zastupce(
                        #[trigger] rok.studenti@[st0.len() + soucet_odhadu(tridy, t as int) + i2],
                        tridy[t as int],
                        i2,
                        d0 + soucet_odhadu(tridy, t as int) + i2,
                    ),
                volby_platne(rok.studenti@),
                decreases n - i,
        {
            let ghost s0 = rok.studenti@;
            let id = rok.nove_id();
            let z = zastupce(tr, i, id);
            rok.studenti.push(z);
            proof {
                assert(rok.studenti@ == s0.push(z));
                assert forall|j: int| 0 <= j < rok.studenti@.len() implies (#[trigger] rok.studenti@[j]).volby.dobre() by {
                    if j < s0.len() {
                        assert(s0[j].volby.dobre());
                    }
                }
                assert forall|t2: int, i2: int|
                    0 <= t2 < t && 0 <= i2 < odhad_spec(tridy[t2]) implies je_zastupce(
                        #[trigger] rok.studenti@[st0.len() + soucet_odhadu(tridy, t2) + i2],
                        tridy[t2],
                        i2,
                        d0 + soucet_odhadu(tridy, t2) + i2,
                    ) by {
                    lemma_soucet_monotonni(tridy, t2 + 1, t as int);
                    assert(rok.studenti@[st0.len() + soucet_odhadu(tridy, t2) + i2] == s0[st0.len() + soucet_odhadu(tridy, t2) + i2]);
                }
            }
            i = i + 1;
        }
        let ghost s1 = rok.studenti@;
        rozdel_tridu(rok, tr.id.as_str());
        proof {
            let s2 = rok.studenti@;
            assert forall|j: int| 0 <= j < s2.len() implies stejna_identita(#[trigger] s1[j], s2[j]) && s2[j].volby.dobre()
                && crate::rok::volby_map(s2[j].volby) == crate::rok::volby_map(s1[j].volby) by {
                assert(jen_skupina(s2[j], s1[j]));
                assert(s1[j].volby.dobre());
                lemma_stejne_volby_zaka(s1[j].volby, s2[j].volby);
            }
            assert forall|j: int| 0 <= j < st0.len() implies stejna_identita(#[trigger] st0[j], s2[j]) by {
                assert(stejna_identita(st0[j], s1[j]));
                assert(stejna_identita(s1[j], s2[j]));
            }
            assert forall|t2: int, i2: int|
                0 <= t2 < t + 1 && 0 <= i2 < odhad_spec(tridy[t2]) implies je_zastupce(
                    #[trigger] s2[st0.len() + soucet_odhadu(tridy, t2) + i2],
                    tridy[t2],
                    i2,
                    d0 + soucet_odhadu(tridy, t2) + i2,
                ) by {
                lemma_soucet_monotonni(tridy, t2 + 1, t + 1);
                let j = st0.len() + soucet_odhadu(tridy, t2) + i2;
                assert(stejna_identita(s1[j], s2[j]));
                if t2 == t {
                    assert(je_zastupce(s1[j], tridy[t2], i2, d0 + soucet_odhadu(tridy, t2) + i2));
                } else {
                    assert(je_zastupce(s1[j], tridy[t2], i2, d0 + soucet_odhadu(tridy, t2) + i2));
                }
            }
        }
        t = t + 1;
    }
    // Volby všech menu.
    let ghost s3 = rok.studenti@;
    proof {
        lemma_soucet_odhadu(tridy, tridy.len() as int);
    }
    let mut q: usize = 0;
    while q < rok.menu.len()
        invariant
            q <= rok.menu@.len(),
            rok.menu@ == old(rok).menu@,
            rok.label@ == old(rok).label@,
            rok.dalsi_id == d0 + soucet_odhadu(tridy, tridy.len() as int),
            rok.studenti@.len() == s3.len(),
            s3.len() == st0.len() + soucet_odhadu(tridy, tridy.len() as int),
            510 * s3.len() + 255 < usize::MAX,
            forall|j: int| 0 <= j < s3.len() ==> stejna_identita(#[trigger] s3[j], rok.studenti@[j]),
            volby_platne(rok.studenti@),
        decreases rok.menu@.len() - q,
    {
        let id = rok.menu[q].id.clone();
        let ghost s4 = rok.studenti@;
        let rezerva: usize = 255 * rok.studenti.len() + 255;
        let vejde = match crate::rok::celkem_voleb_zaku(&rok.studenti, id.as_str()) {
            Some(c) => c < usize::MAX - rezerva,
            None => false,
        };
        if vejde {
            let seed = (q as u64).wrapping_add(1000);
            let r = doplnit_volby(rok, id.as_str(), seed);
            proof {
                let s5 = rok.studenti@;
                let mi = index_menu(rok.menu@, id@);
                if mi >= 0 && rok.menu@[mi].volby@.len() > 0 {
                    assert(doplneno(s4, s5, rok.menu@[mi], r as int));
                    assert forall|j: int| 0 <= j < s3.len() implies stejna_identita(#[trigger] s3[j], s5[j]) by {
                        assert(stejna_identita(s3[j], s4[j]));
                        assert(jen_volby(s4[j], s5[j]));
                    }
                }
            }
        }
        q = q + 1;
    }
    proof {
        let s6 = rok.studenti@;
        assert forall|j: int| 0 <= j < st0.len() implies stejna_identita(#[trigger] st0[j], s6[j]) by {
            assert(stejna_identita(st0[j], s3[j]));
            assert(stejna_identita(s3[j], s6[j]));
        }
        assert forall|t2: int, i2: int|
            0 <= t2 < tridy.len() && 0 <= i2 < odhad_spec(tridy[t2]) implies je_zastupce(
                #[trigger] s6[st0.len() + soucet_odhadu(tridy, t2) + i2],
                tridy[t2],
                i2,
                d0 + soucet_odhadu(tridy, t2) + i2,
            ) by {
            lemma_soucet_monotonni(tridy, t2 + 1, tridy.len() as int);
            let j = st0.len() + soucet_odhadu(tridy, t2) + i2;
            assert(stejna_identita(s3[j], s6[j]));
        }
    }
}

proof fn lemma_soucet_monotonni(tridy: Seq<Trida>, a: int, b: int)
    requires
        0 <= a <= b,
    ensures
        soucet_odhadu(tridy, a) <= soucet_odhadu(tridy, b),
    decreases b - a,
{
    if a < b {
        lemma_soucet_monotonni(tridy, a, b - 1);
    }
}

/// Výchozí projekt: škola, učební plán, menu voleb a zástupní žáci, aby šlo rozvrh hned
/// vygenerovat. Skutečné žáky zadá průvodce „Vytvořit nový rok“.
pub fn vychozi() -> (p: Projekt)
    ensures
        p.rok.label@ == "2026/27"@,
        p.skola.tridy@.len() == 17,
        tridy_platne(p.skola.tridy@),
        p.skola.ucitele@.len() == 42,
        p.rok.dalsi_id == 1 + soucet_odhadu(p.skola.tridy@, 17),
        p.rok.studenti@.len() == soucet_odhadu(p.skola.tridy@, 17),
        forall|t: int, i: int|
            0 <= t < 17 && 0 <= i < odhad_spec(p.skola.tridy@[t]) ==> je_zastupce(
                #[trigger] p.rok.studenti@[soucet_odhadu(p.skola.tridy@, t) + i],
                p.skola.tridy@[t],
                i,
                1 + soucet_odhadu(p.skola.tridy@, t) + i,
            ),
        volby_platne(p.rok.studenti@),
        forall|k: int| 0 <= k < p.rok.menu@.len() ==> menu_ucitele_ok(#[trigger] p.rok.menu@[k], ids_ucitelu(p.skola.ucitele@)),
        forall|k: int|
            0 <= k < p.rok.menu@.len() ==> predmety_voleb_ok(#[trigger] p.rok.menu@[k], p.skola.predmety@.map_values(|x: Predmet| x.id@)),
        p.historie@.len() == 0,
        p.piny.polozky@.len() == 0,
        p.piny.dobre(),
        p.rozvrh.is_none(),
        plan_ze_sablon(p.skola.tridy@, p.skola.tridy@.len() as int, p.skola.plan@),
        menu_vychozi(p.skola.tridy@, p.rok.menu@),
{
    let (skola, menu) = vychozi_skola_a_menu();
    let mut rok = SkolniRok { label: "2026/27".to_owned(), studenti: Vec::new(), menu, dalsi_id: 1 };
    let ghost rok0 = rok;
    zastupni_zaci(&skola, &mut rok);
    proof {
        assert forall|t: int, i: int|
            0 <= t < 17 && 0 <= i < odhad_spec(skola.tridy@[t]) implies je_zastupce(
                #[trigger] rok.studenti@[soucet_odhadu(skola.tridy@, t) + i],
                skola.tridy@[t],
                i,
                1 + soucet_odhadu(skola.tridy@, t) + i,
            ) by {
            assert(rok0.studenti@.len() == 0);
            assert(je_zastupce(
                rok.studenti@[rok0.studenti@.len() + soucet_odhadu(skola.tridy@, t) + i],
                skola.tridy@[t],
                i,
                rok0.dalsi_id + soucet_odhadu(skola.tridy@, t) + i,
            ));
        }
    }
    Projekt { skola, rok, historie: Vec::new(), piny: Mapa::new(), rozvrh: None }
}

} // verus!
