//! Datový model školy a školního roku: třídy, místnosti, učitelé, předměty, učební
//! plán, nastavení řešiče, žáci a katalogy voleb.

use crate::hledani::prvni;
use crate::mapa::Mapa;
use crate::solver::Vysledek;
use crate::text::{desitkove, pripoj, rovno, cislo};
pub use crate::vychozi::{vychozi, vychozi_skola_a_menu};
use vstd::prelude::*;

verus! {

pub const DNY: usize = 5;
pub const SLOTU: usize = 12;
pub const N_SLOTU: usize = 60;
/// Pravidlo P5: nejvýše 7 vyučovacích hodin v kuse, pak nutná pauza ≥ 1 hodina.
pub const MAX_RUN: usize = 7;
/// Nejvýše 8 hodin za den pro žáka / třídu.
pub const MAX_DEN_TRIDA: usize = 8;
/// Nejvýše 2 hodiny stejného předmětu (a skupiny) za den.
pub const MAX_STEJNY_PREDMET_DEN: usize = 2;

/// Den a pořadí hodiny ze slotu týdne (den*12+slot).
pub fn den_a_slot(s: usize) -> (r: (usize, usize))
    ensures
        r.0 == s / SLOTU,
        r.1 == s % SLOTU,
{
    (s / SLOTU, s % SLOTU)
}

/// Zkratka dne (Po–Pá).
pub open spec fn nazev_dne_spec(d: int) -> Seq<char> {
    if d == 0 { "Po"@ } else if d == 1 { "Út"@ } else if d == 2 { "St"@ } else if d == 3 { "Čt"@ } else { "Pá"@ }
}

/// Zkratka dne (Po–Pá).
pub fn nazev_dne(d: usize) -> (r: &'static str)
    requires
        d < DNY,
    ensures
        r@ == nazev_dne_spec(d as int),
        d == 0 ==> r@ == "Po"@,
        d == 1 ==> r@ == "Út"@,
        d == 2 ==> r@ == "St"@,
        d == 3 ==> r@ == "Čt"@,
        d == 4 ==> r@ == "Pá"@,
{
    if d == 0 { "Po" } else if d == 1 { "Út" } else if d == 2 { "St" } else if d == 3 { "Čt" } else { "Pá" }
}

/// Začátek vyučovací hodiny.
pub open spec fn cas_zacatku_spec(k: int) -> Seq<char> {
    if k == 0 { "7:20"@ } else if k == 1 { "8:10"@ } else if k == 2 { "9:00"@ } else if k == 3 { "10:00"@ }
    else if k == 4 { "10:55"@ } else if k == 5 { "12:00"@ } else if k == 6 { "12:55"@ } else if k == 7 { "13:45"@ }
    else if k == 8 { "14:35"@ } else if k == 9 { "15:25"@ } else if k == 10 { "16:15"@ } else { "17:05"@ }
}

/// Začátek vyučovací hodiny.
pub fn cas_zacatku(k: usize) -> (r: &'static str)
    requires
        k < SLOTU,
    ensures
        r@ == cas_zacatku_spec(k as int),
        k == 0 ==> r@ == "7:20"@,
        k == 1 ==> r@ == "8:10"@,
        k == 2 ==> r@ == "9:00"@,
        k == 3 ==> r@ == "10:00"@,
        k == 4 ==> r@ == "10:55"@,
        k == 5 ==> r@ == "12:00"@,
        k == 6 ==> r@ == "12:55"@,
        k == 7 ==> r@ == "13:45"@,
        k == 8 ==> r@ == "14:35"@,
        k == 9 ==> r@ == "15:25"@,
        k == 10 ==> r@ == "16:15"@,
        k == 11 ==> r@ == "17:05"@,
{
    if k == 0 { "7:20" } else if k == 1 { "8:10" } else if k == 2 { "9:00" } else if k == 3 { "10:00" }
    else if k == 4 { "10:55" } else if k == 5 { "12:00" } else if k == 6 { "12:55" } else if k == 7 { "13:45" }
    else if k == 8 { "14:35" } else if k == 9 { "15:25" } else if k == 10 { "16:15" } else { "17:05" }
}

/// Konec vyučovací hodiny.
pub open spec fn cas_konce_spec(k: int) -> Seq<char> {
    if k == 0 { "8:05"@ } else if k == 1 { "8:55"@ } else if k == 2 { "9:45"@ } else if k == 3 { "10:45"@ }
    else if k == 4 { "11:40"@ } else if k == 5 { "12:45"@ } else if k == 6 { "13:40"@ } else if k == 7 { "14:30"@ }
    else if k == 8 { "15:20"@ } else if k == 9 { "16:10"@ } else if k == 10 { "17:00"@ } else { "17:50"@ }
}

/// Konec vyučovací hodiny.
pub fn cas_konce(k: usize) -> (r: &'static str)
    requires
        k < SLOTU,
    ensures
        r@ == cas_konce_spec(k as int),
        k == 0 ==> r@ == "8:05"@,
        k == 1 ==> r@ == "8:55"@,
        k == 2 ==> r@ == "9:45"@,
        k == 3 ==> r@ == "10:45"@,
        k == 4 ==> r@ == "11:40"@,
        k == 5 ==> r@ == "12:45"@,
        k == 6 ==> r@ == "13:40"@,
        k == 7 ==> r@ == "14:30"@,
        k == 8 ==> r@ == "15:20"@,
        k == 9 ==> r@ == "16:10"@,
        k == 10 ==> r@ == "17:00"@,
        k == 11 ==> r@ == "17:50"@,
{
    if k == 0 { "8:05" } else if k == 1 { "8:55" } else if k == 2 { "9:45" } else if k == 3 { "10:45" }
    else if k == 4 { "11:40" } else if k == 5 { "12:45" } else if k == 6 { "13:40" } else if k == 7 { "14:30" }
    else if k == 8 { "15:20" } else if k == 9 { "16:10" } else if k == 10 { "17:00" } else { "17:50" }
}

// ───────────────────────────── škola ─────────────────────────────

#[derive(Clone, Copy, Debug, PartialEq, Eq, Structural, Default)]
pub enum TypStudia {
    #[default]
    Osmilete,
    Ctyrlete,
}

impl TypStudia {
    pub fn nazev(self) -> (r: &'static str)
        ensures
            self == TypStudia::Osmilete ==> r@ == "8leté"@,
            self == TypStudia::Ctyrlete ==> r@ == "4leté"@,
    {
        match self {
            TypStudia::Osmilete => "8leté",
            TypStudia::Ctyrlete => "4leté",
        }
    }
}

/// Limity raných (7:20) a odpoledních hodin. `None` = bez limitu.
#[derive(Clone, Copy, Debug, PartialEq, Eq, Structural, Default)]
pub struct Omezeni {
    pub rane: Option<u8>,
    pub odpoledni: Option<u8>,
}

/// Požadavek P1 podle efektivního ročníku.
pub open spec fn omezeni_rocniku(r: u8) -> Omezeni {
    if r <= 3 {
        Omezeni { rane: Some(0), odpoledni: Some(0) }
    } else if r == 4 {
        Omezeni { rane: Some(1), odpoledni: Some(1) }
    } else if r == 5 {
        Omezeni { rane: Some(2), odpoledni: Some(2) }
    } else {
        Omezeni { rane: None, odpoledni: None }
    }
}

/// Limit jako text („∞“ = bez limitu).
pub open spec fn limit_text(o: Option<u8>) -> Seq<char> {
    match o {
        Some(x) => desitkove(x as nat),
        None => seq!['∞'],
    }
}

fn pripoj_limit(s: &mut String, o: Option<u8>)
    ensures
        final(s)@ == old(s)@ + limit_text(o),
{
    match o {
        Some(x) => {
            let c = cislo(x as u64);
            pripoj(s, c.as_str());
        },
        None => {
            pripoj(s, "∞");
            proof {
                reveal_strlit("∞");
            }
        },
    }
}

impl Omezeni {
    /// Požadavek P1 podle efektivního ročníku.
    pub fn pro_rocnik(efektivni_rocnik: u8) -> (r: Omezeni)
        ensures
            r == omezeni_rocniku(efektivni_rocnik),
    {
        if efektivni_rocnik <= 3 {
            Omezeni { rane: Some(0), odpoledni: Some(0) }
        } else if efektivni_rocnik == 4 {
            Omezeni { rane: Some(1), odpoledni: Some(1) }
        } else if efektivni_rocnik == 5 {
            Omezeni { rane: Some(2), odpoledni: Some(2) }
        } else {
            Omezeni { rane: None, odpoledni: None }
        }
    }

    /// „raných X / odpoledních Y“.
    pub fn popis(&self) -> (r: String)
        ensures
            r@ == "raných "@ + limit_text(self.rane) + " / odpoledních "@ + limit_text(self.odpoledni),
    {
        let mut s = String::new();
        pripoj(&mut s, "raných ");
        pripoj_limit(&mut s, self.rane);
        pripoj(&mut s, " / odpoledních ");
        pripoj_limit(&mut s, self.odpoledni);
        s
    }
}

#[derive(Clone, Debug)]
pub struct Trida {
    pub id: String,
    pub nazev: String,
    pub rocnik: u8,
    pub typ: TypStudia,
    pub kmenova: String,
    pub naslednik: Option<String>,
    pub omezeni_prepsat: Option<Omezeni>,
}

impl Trida {
    /// Efektivní ročník (4leté třídy: 1A→5 … 4A→8).
    pub open spec fn ef_rocnik(&self) -> int {
        match self.typ {
            TypStudia::Osmilete => self.rocnik as int,
            TypStudia::Ctyrlete => self.rocnik + 4,
        }
    }

    /// Ročník je zapsaný tak, že efektivní ročník se vejde do `u8`.
    pub open spec fn platna(&self) -> bool {
        self.ef_rocnik() <= u8::MAX
    }

    /// Omezení P1 třídy: přepsané, nebo podle efektivního ročníku.
    pub open spec fn spec_omezeni(&self) -> Omezeni {
        match self.omezeni_prepsat {
            Some(o) => o,
            None => omezeni_rocniku(self.ef_rocnik() as u8),
        }
    }

    /// 4leté třídy se pro omezení a volitelné předměty chovají jako vyšší gymnázium.
    pub fn efektivni_rocnik(&self) -> (r: u8)
        requires
            self.platna(),
        ensures
            r == self.ef_rocnik(),
    {
        match self.typ {
            TypStudia::Osmilete => self.rocnik,
            TypStudia::Ctyrlete => self.rocnik + 4,
        }
    }

    pub fn omezeni(&self) -> (r: Omezeni)
        requires
            self.platna(),
        ensures
            r == self.spec_omezeni(),
    {
        match self.omezeni_prepsat {
            Some(o) => o,
            None => Omezeni::pro_rocnik(self.efektivni_rocnik()),
        }
    }
}

#[derive(Clone, Debug)]
pub struct Mistnost {
    pub id: String,
    pub nazev: String,
    pub kapacita: u32,
    /// Kmenová učebna – může sloužit libovolnému předmětu, který smí do kmenové.
    pub kmenova: bool,
}

#[derive(Clone, Debug)]
pub struct Ucitel {
    pub id: String,
    pub jmeno: String,
    /// Sloty (den*12+slot), kdy učitel neučí.
    pub volno: Vec<u8>,
    pub max_den: u8,
    pub preferovana_mistnost: Option<String>,
    /// Třídy, které učitel preferuje – řešič jim dává přednostně lepší (ne brzké/pozdní) hodiny.
    pub preferovane_tridy: Vec<String>,
}

#[derive(Clone, Debug)]
pub struct Predmet {
    pub id: String,
    pub nazev: String,
    /// Odborné místnosti v pořadí preference.
    pub specialni_mistnosti: Vec<String>,
    /// Smí se učit i v kmenové učebně (případně jiné volné kmenové – „přeliv“).
    pub kmenova_ok: bool,
}

#[derive(Clone, Debug, PartialEq, Eq)]
pub struct Pol {
    pub predmet: String,
    pub ucitel: String,
}

#[allow(inconsistent_fields)]
#[derive(Clone, Debug, PartialEq, Eq)]
pub enum Struktura {
    /// Celá třída, jeden učitel.
    CelouTridou(String),
    /// Skupiny AJa / AJb, každá svůj učitel (hodiny skupin jsou nezávislé).
    Rozdeleno { a: String, b: String },
    /// Dívky / chlapci – vynuceně paralelní slot (TV, PL).
    Pohlavi { div: String, chl: String },
    /// Lichý/sudý týden celou třídou (např. DV ↔ VV).
    Stridave { l: Pol, s: Pol },
    /// Lichý/sudý týden zvlášť pro AJa a AJb. Pole = [lichý, sudý].
    StridaveSkupiny { a: [Pol; 2], b: [Pol; 2] },
}

/// Učitelé struktury v pořadí: celá třída; a, b; dívky, chlapci; lichý, sudý;
/// a-lichý, a-sudý, b-lichý, b-sudý.
pub open spec fn ucitele_struktury(s: Struktura) -> Seq<Seq<char>> {
    match s {
        Struktura::CelouTridou(u) => seq![u@],
        Struktura::Rozdeleno { a, b } => seq![a@, b@],
        Struktura::Pohlavi { div, chl } => seq![div@, chl@],
        Struktura::Stridave { l, s } => seq![l.ucitel@, s.ucitel@],
        Struktura::StridaveSkupiny { a, b } => seq![a[0].ucitel@, a[1].ucitel@, b[0].ucitel@, b[1].ucitel@],
    }
}

/// Pořadové číslo druhu struktury (celá třída 0 … L↔S skupiny 4).
pub open spec fn druh(s: Struktura) -> usize {
    match s {
        Struktura::CelouTridou(_) => 0,
        Struktura::Rozdeleno { .. } => 1,
        Struktura::Pohlavi { .. } => 2,
        Struktura::Stridave { .. } => 3,
        Struktura::StridaveSkupiny { .. } => 4,
    }
}

impl Struktura {
    pub fn nazev_druhu(&self) -> (r: &'static str)
        ensures
            druh(*self) == 0 ==> r@ == "celá třída"@,
            druh(*self) == 1 ==> r@ == "AJa / AJb"@,
            druh(*self) == 2 ==> r@ == "dívky / chlapci"@,
            druh(*self) == 3 ==> r@ == "L↔S třída"@,
            druh(*self) == 4 ==> r@ == "L↔S skupiny"@,
    {
        match self {
            Struktura::CelouTridou(_) => "celá třída",
            Struktura::Rozdeleno { .. } => "AJa / AJb",
            Struktura::Pohlavi { .. } => "dívky / chlapci",
            Struktura::Stridave { .. } => "L↔S třída",
            Struktura::StridaveSkupiny { .. } => "L↔S skupiny",
        }
    }

    pub fn ucitele(&self) -> (r: Vec<&str>)
        ensures
            r@.map_values(|x: &str| x@) == ucitele_struktury(*self),
    {
        let mut r: Vec<&str> = Vec::new();
        match self {
            Struktura::CelouTridou(u) => {
                r.push(u.as_str());
            },
            Struktura::Rozdeleno { a, b } => {
                r.push(a.as_str());
                r.push(b.as_str());
            },
            Struktura::Pohlavi { div, chl } => {
                r.push(div.as_str());
                r.push(chl.as_str());
            },
            Struktura::Stridave { l, s } => {
                r.push(l.ucitel.as_str());
                r.push(s.ucitel.as_str());
            },
            Struktura::StridaveSkupiny { a, b } => {
                r.push(a[0].ucitel.as_str());
                r.push(a[1].ucitel.as_str());
                r.push(b[0].ucitel.as_str());
                r.push(b[1].ucitel.as_str());
            },
        }
        proof {
            assert(r@.map_values(|x: &str| x@) =~= ucitele_struktury(*self));
        }
        r
    }
}

} // verus!

verus! {

#[derive(Clone, Debug)]
pub struct PlanovaHodina {
    pub trida: String,
    /// Předmět (u střídavých struktur jen popisek, např. „DV/VV“).
    pub predmet: String,
    pub hodin: u8,
    pub struktura: Struktura,
    /// Vyučovat ve dvouhodinových blocích.
    pub dvoj: bool,
}

#[derive(Clone, Copy, Debug, PartialEq, Eq, Structural)]
pub struct Vahy {
    pub okno: u32,
    pub rana: u32,
    pub odpoledne_nizsi: u32,
    pub odpoledne_vyssi: u32,
    pub seminar_odpoledne: u32,
    pub rozlozeni: u32,
    pub ucitel_okno: u32,
    /// Penalizace za brzkou/pozdní hodinu preferované třídy učitele.
    pub ucitel_preference: u32,
}

impl Default for Vahy {
    fn default() -> (r: Vahy)
        ensures
            r == (Vahy {
                okno: 5,
                rana: 3,
                odpoledne_nizsi: 1,
                odpoledne_vyssi: 2,
                seminar_odpoledne: 2,
                rozlozeni: 2,
                ucitel_okno: 1,
                ucitel_preference: 3,
            }),
    {
        Vahy {
            okno: 5,
            rana: 3,
            odpoledne_nizsi: 1,
            odpoledne_vyssi: 2,
            seminar_odpoledne: 2,
            rozlozeni: 2,
            ucitel_okno: 1,
            ucitel_preference: 3,
        }
    }
}

#[derive(Clone, Debug)]
pub struct Nastaveni {
    /// Časový limit řešiče v sekundách.
    pub casovy_limit_s: u32,
    /// true = limity P1 platí za den, false = za týden.
    pub limity_za_den: bool,
    /// První odpolední slot (6 = 12:55).
    pub odpoledne_od: u8,
    /// Když limity P1 nestačí na hodinovou dotaci, minimálně je zvýšit (a nahlásit).
    pub auto_uvolneni: bool,
    /// Semínko náhody – jiné číslo = jiná varianta rozvrhu.
    pub seed: u64,
    pub vahy: Vahy,
}

impl Default for Nastaveni {
    fn default() -> (r: Nastaveni)
        ensures
            r.casovy_limit_s == 30,
            r.limity_za_den,
            r.odpoledne_od == 6,
            r.auto_uvolneni,
            r.seed == 1,
            r.vahy.okno == 5 && r.vahy.rana == 3 && r.vahy.odpoledne_nizsi == 1 && r.vahy.odpoledne_vyssi == 2,
            r.vahy.seminar_odpoledne == 2 && r.vahy.rozlozeni == 2 && r.vahy.ucitel_okno == 1,
            r.vahy.ucitel_preference == 3,
    {
        Nastaveni {
            casovy_limit_s: 30,
            limity_za_den: true,
            odpoledne_od: 6,
            auto_uvolneni: true,
            seed: 1,
            vahy: Vahy::default(),
        }
    }
}

#[derive(Clone, Debug)]
pub struct Skola {
    pub tridy: Vec<Trida>,
    pub mistnosti: Vec<Mistnost>,
    pub ucitele: Vec<Ucitel>,
    pub predmety: Vec<Predmet>,
    pub plan: Vec<PlanovaHodina>,
    pub nastaveni: Nastaveni,
}

/// Index první třídy s daným id (-1 = není).
pub open spec fn index_tridy(s: Seq<Trida>, id: Seq<char>) -> int {
    prvni(s, |t: Trida| t.id@ == id)
}

pub open spec fn index_ucitele(s: Seq<Ucitel>, id: Seq<char>) -> int {
    prvni(s, |t: Ucitel| t.id@ == id)
}

pub open spec fn index_predmetu(s: Seq<Predmet>, id: Seq<char>) -> int {
    prvni(s, |t: Predmet| t.id@ == id)
}

pub open spec fn index_mistnosti(s: Seq<Mistnost>, id: Seq<char>) -> int {
    prvni(s, |t: Mistnost| t.id@ == id)
}

/// Všechny třídy mají efektivní ročník v rozsahu `u8`.
pub open spec fn tridy_platne(s: Seq<Trida>) -> bool {
    forall|i: int| 0 <= i < s.len() ==> (#[trigger] s[i]).platna()
}

/// Následníkem třídy `t` je třída `id`.
pub open spec fn nasleduje(t: Trida, id: Seq<char>) -> bool {
    match t.naslednik {
        Some(n) => n@ == id,
        None => false,
    }
}

/// Třída je následníkem některé třídy.
pub open spec fn je_naslednikem(tridy: Seq<Trida>, id: Seq<char>) -> bool {
    exists|j: int| 0 <= j < tridy.len() && nasleduje(#[trigger] tridy[j], id)
}

/// Vstupní třída: 1. ročník, který není následníkem žádné třídy.
pub open spec fn je_vstupni(tridy: Seq<Trida>, t: Trida) -> bool {
    t.rocnik == 1 && !je_naslednikem(tridy, t.id@)
}

impl Skola {
    pub fn trida(&self, id: &str) -> (r: Option<&Trida>)
        ensures
            match r {
                Some(t) => index_tridy(self.tridy@, id@) >= 0 && *t == self.tridy@[index_tridy(self.tridy@, id@)],
                None => index_tridy(self.tridy@, id@) == -1,
            },
    {
        let ghost p = |t: Trida| t.id@ == id@;
        let mut i: usize = 0;
        while i < self.tridy.len()
            invariant
                i <= self.tridy@.len(),
                p == (|t: Trida| t.id@ == id@),
                forall|j: int| 0 <= j < i ==> !p(#[trigger] self.tridy@[j]),
            decreases self.tridy@.len() - i,
        {
            if rovno(self.tridy[i].id.as_str(), id) {
                proof {
                    crate::hledani::lemma_prvni_je(self.tridy@, p, i as int);
                }
                return Some(&self.tridy[i]);
            }
            i = i + 1;
        }
        proof {
            crate::hledani::lemma_prvni_zadny(self.tridy@, p);
        }
        None
    }

    /// Pořadí první třídy s daným id.
    pub fn pozice_tridy(&self, id: &str) -> (r: Option<usize>)
        ensures
            match r {
                Some(i) => i == index_tridy(self.tridy@, id@) && i < self.tridy@.len(),
                None => index_tridy(self.tridy@, id@) == -1,
            },
    {
        let ghost p = |t: Trida| t.id@ == id@;
        let mut i: usize = 0;
        while i < self.tridy.len()
            invariant
                i <= self.tridy@.len(),
                p == (|t: Trida| t.id@ == id@),
                forall|j: int| 0 <= j < i ==> !p(#[trigger] self.tridy@[j]),
            decreases self.tridy@.len() - i,
        {
            if rovno(self.tridy[i].id.as_str(), id) {
                proof {
                    crate::hledani::lemma_prvni_je(self.tridy@, p, i as int);
                }
                return Some(i);
            }
            i = i + 1;
        }
        proof {
            crate::hledani::lemma_prvni_zadny(self.tridy@, p);
        }
        None
    }

    pub fn ucitel(&self, id: &str) -> (r: Option<&Ucitel>)
        ensures
            match r {
                Some(t) => index_ucitele(self.ucitele@, id@) >= 0 && *t == self.ucitele@[index_ucitele(self.ucitele@, id@)],
                None => index_ucitele(self.ucitele@, id@) == -1,
            },
    {
        let ghost p = |t: Ucitel| t.id@ == id@;
        let mut i: usize = 0;
        while i < self.ucitele.len()
            invariant
                i <= self.ucitele@.len(),
                p == (|t: Ucitel| t.id@ == id@),
                forall|j: int| 0 <= j < i ==> !p(#[trigger] self.ucitele@[j]),
            decreases self.ucitele@.len() - i,
        {
            if rovno(self.ucitele[i].id.as_str(), id) {
                proof {
                    crate::hledani::lemma_prvni_je(self.ucitele@, p, i as int);
                }
                return Some(&self.ucitele[i]);
            }
            i = i + 1;
        }
        proof {
            crate::hledani::lemma_prvni_zadny(self.ucitele@, p);
        }
        None
    }

    pub fn predmet(&self, id: &str) -> (r: Option<&Predmet>)
        ensures
            match r {
                Some(t) => index_predmetu(self.predmety@, id@) >= 0 && *t == self.predmety@[index_predmetu(self.predmety@, id@)],
                None => index_predmetu(self.predmety@, id@) == -1,
            },
    {
        let ghost p = |t: Predmet| t.id@ == id@;
        let mut i: usize = 0;
        while i < self.predmety.len()
            invariant
                i <= self.predmety@.len(),
                p == (|t: Predmet| t.id@ == id@),
                forall|j: int| 0 <= j < i ==> !p(#[trigger] self.predmety@[j]),
            decreases self.predmety@.len() - i,
        {
            if rovno(self.predmety[i].id.as_str(), id) {
                proof {
                    crate::hledani::lemma_prvni_je(self.predmety@, p, i as int);
                }
                return Some(&self.predmety[i]);
            }
            i = i + 1;
        }
        proof {
            crate::hledani::lemma_prvni_zadny(self.predmety@, p);
        }
        None
    }

    pub fn mistnost(&self, id: &str) -> (r: Option<&Mistnost>)
        ensures
            match r {
                Some(t) => index_mistnosti(self.mistnosti@, id@) >= 0 && *t == self.mistnosti@[index_mistnosti(self.mistnosti@, id@)],
                None => index_mistnosti(self.mistnosti@, id@) == -1,
            },
    {
        let ghost p = |t: Mistnost| t.id@ == id@;
        let mut i: usize = 0;
        while i < self.mistnosti.len()
            invariant
                i <= self.mistnosti@.len(),
                p == (|t: Mistnost| t.id@ == id@),
                forall|j: int| 0 <= j < i ==> !p(#[trigger] self.mistnosti@[j]),
            decreases self.mistnosti@.len() - i,
        {
            if rovno(self.mistnosti[i].id.as_str(), id) {
                proof {
                    crate::hledani::lemma_prvni_je(self.mistnosti@, p, i as int);
                }
                return Some(&self.mistnosti[i]);
            }
            i = i + 1;
        }
        proof {
            crate::hledani::lemma_prvni_zadny(self.mistnosti@, p);
        }
        None
    }

    /// Název třídy, nebo id, když třída není známa.
    pub fn nazev_tridy(&self, id: &str) -> (r: String)
        ensures
            index_tridy(self.tridy@, id@) >= 0 ==> r@ == self.tridy@[index_tridy(self.tridy@, id@)].nazev@,
            index_tridy(self.tridy@, id@) == -1 ==> r@ == id@,
    {
        match self.trida(id) {
            Some(t) => t.nazev.clone(),
            None => id.to_owned(),
        }
    }

    /// Třídy, do kterých nastupují noví žáci: 1. ročník, který není následníkem žádné jiné třídy.
    pub fn vstupni_tridy(&self) -> (r: Vec<String>)
        ensures
            r@.map_values(|s: String| s@) == self.tridy@.filter(|t: Trida| je_vstupni(self.tridy@, t)).map_values(
                |t: Trida| t.id@,
            ),
    {
        let ghost p = |t: Trida| je_vstupni(self.tridy@, t);
        let mut r: Vec<String> = Vec::new();
        let mut i: usize = 0;
        while i < self.tridy.len()
            invariant
                i <= self.tridy@.len(),
                p == (|t: Trida| je_vstupni(self.tridy@, t)),
                r@.map_values(|s: String| s@) == self.tridy@.take(i as int).filter(p).map_values(|t: Trida| t.id@),
            decreases self.tridy@.len() - i,
        {
            let t = &self.tridy[i];
            let mut je_nasl = false;
            let mut j: usize = 0;
            while j < self.tridy.len()
                invariant
                    j <= self.tridy@.len(),
                    *t == self.tridy@[i as int],
                    je_nasl <==> exists|k: int| 0 <= k < j && nasleduje(#[trigger] self.tridy@[k], t.id@),
                decreases self.tridy@.len() - j,
            {
                match &self.tridy[j].naslednik {
                    Some(n) => {
                        if rovno(n.as_str(), t.id.as_str()) {
                            je_nasl = true;
                        }
                    },
                    None => {},
                }
                j = j + 1;
            }
            let ghost r0 = r@;
            proof {
                assert(self.tridy@.take(i + 1) =~= self.tridy@.take(i as int).push(*t));
                self.tridy@.take(i as int).lemma_filter_push(*t, p);
            }
            if t.rocnik == 1 && !je_nasl {
                r.push(t.id.clone());
                proof {
                    assert(p(*t));
                    assert(r@.map_values(|s: String| s@) =~= r0.map_values(|s: String| s@).push(t.id@));
                    assert(self.tridy@.take(i as int).filter(p).push(*t).map_values(|t: Trida| t.id@) =~= self.tridy@.take(
                        i as int,
                    ).filter(p).map_values(|t: Trida| t.id@).push(t.id@));
                }
            } else {
                proof {
                    assert(!p(*t));
                }
            }
            i = i + 1;
        }
        proof {
            assert(self.tridy@.take(self.tridy@.len() as int) =~= self.tridy@);
        }
        r
    }
}

} // verus!

verus! {

// ───────────────────────────── školní rok ─────────────────────────────

#[derive(Clone, Copy, Debug, PartialEq, Eq, Structural, PartialOrd, Ord)]
pub enum Pohlavi {
    D,
    CH,
}

impl Pohlavi {
    pub fn zkratka(self) -> (r: &'static str)
        ensures
            self == Pohlavi::D ==> r@ == "D"@,
            self == Pohlavi::CH ==> r@ == "CH"@,
    {
        match self {
            Pohlavi::D => "D",
            Pohlavi::CH => "CH",
        }
    }
}

#[derive(Clone, Copy, Debug, PartialEq, Eq, Structural, PartialOrd, Ord)]
pub enum SkupinaAj {
    A,
    B,
}

impl SkupinaAj {
    pub fn nazev(self) -> (r: &'static str)
        ensures
            self == SkupinaAj::A ==> r@ == "AJa"@,
            self == SkupinaAj::B ==> r@ == "AJb"@,
    {
        match self {
            SkupinaAj::A => "AJa",
            SkupinaAj::B => "AJb",
        }
    }
}

#[derive(Clone, Copy, Debug, PartialEq, Eq, Structural, Default)]
pub enum StavStudenta {
    #[default]
    Aktivni,
    /// Na konci roku propadá – v novém roce zůstává ve stejné třídě.
    Propada,
    /// Odešel ze školy – nezařazuje se do rozvrhu.
    Odesel,
}

impl StavStudenta {
    pub fn nazev(self) -> (r: &'static str)
        ensures
            self == StavStudenta::Aktivni ==> r@ == "aktivní"@,
            self == StavStudenta::Propada ==> r@ == "propadá"@,
            self == StavStudenta::Odesel ==> r@ == "odešel"@,
    {
        match self {
            StavStudenta::Aktivni => "aktivní",
            StavStudenta::Propada => "propadá",
            StavStudenta::Odesel => "odešel",
        }
    }
}

#[derive(Clone, Debug)]
pub struct Student {
    pub id: u32,
    pub jmeno: String,
    pub trida: String,
    pub skupina_aj: SkupinaAj,
    pub pohlavi: Pohlavi,
    /// menu ➡ zvolené volby
    pub volby: Mapa<Vec<String>>,
    pub status: StavStudenta,
}

impl Student {
    pub open spec fn spec_v_rozvrhu(&self) -> bool {
        self.status != StavStudenta::Odesel
    }

    pub fn v_rozvrhu(&self) -> (r: bool)
        ensures
            r == self.spec_v_rozvrhu(),
    {
        self.status != StavStudenta::Odesel
    }
}

#[derive(Clone, Debug)]
pub struct Volba {
    pub id: String,
    pub nazev: String,
    pub predmet: String,
    pub ucitel: String,
    pub kapacita: Option<u32>,
}

#[derive(Clone, Debug)]
pub struct Menu {
    pub id: String,
    pub nazev: String,
    pub tridy: Vec<String>,
    pub volby: Vec<Volba>,
    pub hodin_tydne: u8,
    pub dvojhodina: bool,
    /// Kolik voleb si žák vybírá. 1 = všechny volby běží paralelně ve stejném slotu.
    pub pocet_voleb: u8,
}

#[derive(Clone, Debug)]
pub struct SkolniRok {
    pub label: String,
    pub studenti: Vec<Student>,
    pub menu: Vec<Menu>,
    pub dalsi_id: u32,
}

pub open spec fn index_studenta(s: Seq<Student>, id: u32) -> int {
    prvni(s, |x: Student| x.id == id)
}

impl SkolniRok {
    pub fn student(&self, id: u32) -> (r: Option<&Student>)
        ensures
            match r {
                Some(t) => index_studenta(self.studenti@, id) >= 0 && *t == self.studenti@[index_studenta(
                    self.studenti@,
                    id,
                )],
                None => index_studenta(self.studenti@, id) == -1,
            },
    {
        let ghost p = |x: Student| x.id == id;
        let mut i: usize = 0;
        while i < self.studenti.len()
            invariant
                i <= self.studenti@.len(),
                p == (|x: Student| x.id == id),
                forall|j: int| 0 <= j < i ==> !p(#[trigger] self.studenti@[j]),
            decreases self.studenti@.len() - i,
        {
            if self.studenti[i].id == id {
                proof {
                    crate::hledani::lemma_prvni_je(self.studenti@, p, i as int);
                }
                return Some(&self.studenti[i]);
            }
            i = i + 1;
        }
        proof {
            crate::hledani::lemma_prvni_zadny(self.studenti@, p);
        }
        None
    }

    /// Přidělí další volné id žáka.
    pub fn nove_id(&mut self) -> (r: u32)
        requires
            old(self).dalsi_id < u32::MAX,
        ensures
            r == old(self).dalsi_id,
            final(self).dalsi_id == old(self).dalsi_id + 1,
            final(self).studenti@ == old(self).studenti@,
            final(self).menu@ == old(self).menu@,
            final(self).label@ == old(self).label@,
    {
        let id = self.dalsi_id;
        self.dalsi_id = self.dalsi_id + 1;
        id
    }
}

// ───────────────────────────── projekt ─────────────────────────────

/// Obsah datového souboru: škola, rok, historie let, piny a poslední rozvrh.
#[derive(Clone, Debug)]
pub struct Projekt {
    pub skola: Skola,
    pub rok: SkolniRok,
    pub historie: Vec<SkolniRok>,
    /// klíč lekce ➡ začátek (den*12+slot)
    pub piny: Mapa<u8>,
    pub rozvrh: Option<Vysledek>,
}

} // verus!

verus! {

// ───────────────────────────── pohledy a kopie ─────────────────────────────

/// Pohled na vektor řetězců.
pub open spec fn retezce(v: Seq<String>) -> Seq<Seq<char>> {
    v.map_values(|s: String| s@)
}

/// Kopie vektoru řetězců.
pub fn kopie_retezcu(v: &Vec<String>) -> (r: Vec<String>)
    ensures
        r@ == v@,
        retezce(r@) == retezce(v@),
{
    let r = v.clone();
    proof {
        assert(r@ =~= v@);
    }
    r
}

pub struct VolbaV {
    pub id: Seq<char>,
    pub nazev: Seq<char>,
    pub predmet: Seq<char>,
    pub ucitel: Seq<char>,
    pub kapacita: Option<u32>,
}

impl View for Volba {
    type V = VolbaV;

    open spec fn view(&self) -> VolbaV {
        VolbaV {
            id: self.id@,
            nazev: self.nazev@,
            predmet: self.predmet@,
            ucitel: self.ucitel@,
            kapacita: self.kapacita,
        }
    }
}

impl Volba {
    pub fn kopie(&self) -> (r: Volba)
        ensures
            r@ == self@,
    {
        Volba {
            id: self.id.clone(),
            nazev: self.nazev.clone(),
            predmet: self.predmet.clone(),
            ucitel: self.ucitel.clone(),
            kapacita: self.kapacita,
        }
    }
}

pub struct MenuV {
    pub id: Seq<char>,
    pub nazev: Seq<char>,
    pub tridy: Seq<Seq<char>>,
    pub volby: Seq<VolbaV>,
    pub hodin_tydne: u8,
    pub dvojhodina: bool,
    pub pocet_voleb: u8,
}

pub open spec fn volby_v(v: Seq<Volba>) -> Seq<VolbaV> {
    v.map_values(|x: Volba| x@)
}

impl View for Menu {
    type V = MenuV;

    open spec fn view(&self) -> MenuV {
        MenuV {
            id: self.id@,
            nazev: self.nazev@,
            tridy: retezce(self.tridy@),
            volby: volby_v(self.volby@),
            hodin_tydne: self.hodin_tydne,
            dvojhodina: self.dvojhodina,
            pocet_voleb: self.pocet_voleb,
        }
    }
}

impl Menu {
    pub fn kopie(&self) -> (r: Menu)
        ensures
            r@ == self@,
    {
        let mut volby: Vec<Volba> = Vec::new();
        let mut i: usize = 0;
        while i < self.volby.len()
            invariant
                i <= self.volby@.len(),
                volby_v(volby@) == volby_v(self.volby@).take(i as int),
            decreases self.volby@.len() - i,
        {
            let ghost pred = volby@;
            let x = self.volby[i].kopie();
            volby.push(x);
            proof {
                assert(volby@ =~= pred.push(x));
                assert(volby_v(volby@) =~= volby_v(pred).push(x@));
                assert(volby_v(self.volby@).take(i + 1) =~= volby_v(self.volby@).take(i as int).push(self.volby@[i as int]@));
            }
            i = i + 1;
        }
        proof {
            assert(volby_v(self.volby@).take(self.volby@.len() as int) =~= volby_v(self.volby@));
        }
        Menu {
            id: self.id.clone(),
            nazev: self.nazev.clone(),
            tridy: kopie_retezcu(&self.tridy),
            volby,
            hodin_tydne: self.hodin_tydne,
            dvojhodina: self.dvojhodina,
            pocet_voleb: self.pocet_voleb,
        }
    }
}

pub open spec fn menu_v(v: Seq<Menu>) -> Seq<MenuV> {
    v.map_values(|x: Menu| x@)
}

/// Kopie katalogů voleb.
pub fn kopie_menu(v: &Vec<Menu>) -> (r: Vec<Menu>)
    ensures
        menu_v(r@) == menu_v(v@),
{
    let mut r: Vec<Menu> = Vec::new();
    let mut i: usize = 0;
    while i < v.len()
        invariant
            i <= v@.len(),
            menu_v(r@) == menu_v(v@).take(i as int),
        decreases v@.len() - i,
    {
        let ghost pred = r@;
        let x = v[i].kopie();
        r.push(x);
        proof {
            assert(r@ =~= pred.push(x));
            assert(menu_v(r@) =~= menu_v(pred).push(x@));
            assert(menu_v(v@).take(i + 1) =~= menu_v(v@).take(i as int).push(v@[i as int]@));
        }
        i = i + 1;
    }
    proof {
        assert(menu_v(v@).take(v@.len() as int) =~= menu_v(v@));
    }
    r
}

/// Pohled na volby žáka: (menu, zvolené volby) v pořadí klíčů.
pub open spec fn volby_zaka(m: Mapa<Vec<String>>) -> Seq<(Seq<char>, Seq<Seq<char>>)> {
    m.polozky@.map_values(|p: (String, Vec<String>)| (p.0@, retezce(p.1@)))
}

pub struct StudentV {
    pub id: u32,
    pub jmeno: Seq<char>,
    pub trida: Seq<char>,
    pub skupina_aj: SkupinaAj,
    pub pohlavi: Pohlavi,
    pub volby: Seq<(Seq<char>, Seq<Seq<char>>)>,
    pub status: StavStudenta,
}

impl View for Student {
    type V = StudentV;

    open spec fn view(&self) -> StudentV {
        StudentV {
            id: self.id,
            jmeno: self.jmeno@,
            trida: self.trida@,
            skupina_aj: self.skupina_aj,
            pohlavi: self.pohlavi,
            volby: volby_zaka(self.volby),
            status: self.status,
        }
    }
}

pub open spec fn studenti_v(v: Seq<Student>) -> Seq<StudentV> {
    v.map_values(|x: Student| x@)
}

} // verus!
