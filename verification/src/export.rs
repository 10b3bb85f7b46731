//! Exporty rozvrhu: HTML k tisku (třídy / učitelé / osobní rozvrhy žáků), CSV, XML
//! a textový report pro příkazovou řádku.

use crate::data::{index_tridy, retezce, Skola, Student, Trida, DNY, SLOTU};
use crate::mapa::{lemma_lex_asymetricky, lemma_lex_ireflexivni, lemma_lex_tranzitivni, lemma_lex_uplny};
use crate::solver::{LekceInfo, Tyden, Vysledek};
use crate::text::{lex_mensi, porovnej, pridej_znak, pripoj, spojeni_odd, znaky};
use vstd::prelude::*;

verus! {

/// Z jakého pohledu se rozvrh zobrazuje.
#[derive(Clone, Debug)]
pub enum Pohled {
    Trida(String),
    Ucitel(String),
    Mistnost(String),
    Zak(u32),
}

/// Výsledek má ke každé lekci slot a místnost.
pub open spec fn vysledek_uplny(v: Vysledek) -> bool {
    v.slot@.len() == v.lekce@.len() && v.mistnost@.len() == v.lekce@.len()
}

/// Lekce `i` patří do pohledu: třída ji má, učitel ji učí, koná se v místnosti, žák
/// na ni chodí.
pub open spec fn v_pohledu(p: Pohled, v: Vysledek, i: int) -> bool {
    let l = v.lekce@[i];
    match p {
        Pohled::Trida(t) => retezce(l.tridy@).contains(t@),
        Pohled::Ucitel(u) => l.ucitel@ == u@,
        Pohled::Mistnost(m) => match v.mistnost@[i] {
            Some(x) => x@ == m@,
            None => false,
        },
        Pohled::Zak(z) => l.zaci@.contains(z),
    }
}

impl Pohled {
    pub fn obsahuje(&self, v: &Vysledek, i: usize) -> (r: bool)
        requires
            vysledek_uplny(*v),
            i < v.lekce@.len(),
        ensures
            r == v_pohledu(*self, *v, i as int),
    {
        let l = &v.lekce[i];
        match self {
            Pohled::Trida(t) => crate::rok::obsahuje(&l.tridy, t.as_str()),
            Pohled::Ucitel(u) => crate::text::rovno(l.ucitel.as_str(), u.as_str()),
            Pohled::Mistnost(m) => match &v.mistnost[i] {
                Some(x) => crate::text::rovno(x.as_str(), m.as_str()),
                None => false,
            },
            Pohled::Zak(z) => obsahuje_u32(&l.zaci, *z),
        }
    }
}

fn obsahuje_u32(v: &Vec<u32>, x: u32) -> (r: bool)
    ensures
        r == v@.contains(x),
{
    let mut i: usize = 0;
    while i < v.len()
        invariant
            i <= v@.len(),
            forall|j: int| 0 <= j < i ==> v@[j] != x,
        decreases v@.len() - i,
    {
        if v[i] == x {
            return true;
        }
        i = i + 1;
    }
    false
}

/// Lekce `i` probíhá ve slotu týdne `t` (včetně pokračování dvouhodinovky).
pub open spec fn probiha(v: Vysledek, i: int, t: int) -> bool {
    match v.slot@[i] {
        Some(s) => s <= t < s + v.lekce@[i].len,
        None => false,
    }
}

/// Pořadové číslo týdne (oba, lichý, sudý).
pub open spec fn cislo_tydne(t: Tyden) -> int {
    match t {
        Tyden::Oba => 0,
        Tyden::L => 1,
        Tyden::S => 2,
    }
}

/// Lekce `a` jde v buňce před lekcí `b`: podle týdne, skupiny a předmětu, při shodě
/// podle pořadí lekcí.
pub open spec fn drive_v_bunce(v: Vysledek, a: int, b: int) -> bool {
    let la = v.lekce@[a];
    let lb = v.lekce@[b];
    ||| cislo_tydne(la.tyden) < cislo_tydne(lb.tyden)
    ||| cislo_tydne(la.tyden) == cislo_tydne(lb.tyden) && lex_mensi(la.skupina@, lb.skupina@)
    ||| cislo_tydne(la.tyden) == cislo_tydne(lb.tyden) && la.skupina@ == lb.skupina@ && lex_mensi(
        la.predmet@,
        lb.predmet@,
    )
    ||| cislo_tydne(la.tyden) == cislo_tydne(lb.tyden) && la.skupina@ == lb.skupina@ && la.predmet@ == lb.predmet@
        && a < b
}

/// `s` je obsah buňky (den, slot) v pohledu: právě lekce pohledu, které v buňce
/// probíhají, seřazené podle `drive_v_bunce`.
pub open spec fn obsah_bunky(v: Vysledek, p: Pohled, den: int, slot: int, s: Seq<usize>) -> bool {
    &&& forall|i: int|
        0 <= i < v.lekce@.len() ==> (s.contains(i as usize) <==> #[trigger] probiha(v, i, den * SLOTU + slot) && v_pohledu(
            p,
            v,
            i,
        ))
    &&& forall|k: int| 0 <= k < s.len() ==> (#[trigger] s[k]) < v.lekce@.len()
    &&& forall|a: int, b: int| 0 <= a < b < s.len() ==> drive_v_bunce(v, #[trigger] s[a] as int, #[trigger] s[b] as int)
}

/// Obsah buňky (je jednoznačný, viz `lemma_bunka_jednoznacna`).
pub open spec fn bunka(v: Vysledek, p: Pohled, den: int, slot: int) -> Seq<usize> {
    choose|s: Seq<usize>| obsah_bunky(v, p, den, slot, s)
}

proof fn lemma_drive_asym(v: Vysledek, a: int, b: int)
    ensures
        !(drive_v_bunce(v, a, b) && drive_v_bunce(v, b, a)),
{
    lemma_lex_asymetricky(v.lekce@[a].skupina@, v.lekce@[b].skupina@);
    lemma_lex_asymetricky(v.lekce@[a].predmet@, v.lekce@[b].predmet@);
    lemma_lex_ireflexivni(v.lekce@[a].skupina@);
    lemma_lex_ireflexivni(v.lekce@[a].predmet@);
}

proof fn lemma_drive_uplne(v: Vysledek, a: int, b: int)
    requires
        a != b,
    ensures
        drive_v_bunce(v, a, b) || drive_v_bunce(v, b, a),
{
    lemma_lex_uplny(v.lekce@[a].skupina@, v.lekce@[b].skupina@);
    lemma_lex_uplny(v.lekce@[a].predmet@, v.lekce@[b].predmet@);
}

proof fn lemma_drive_tranz(v: Vysledek, a: int, b: int, c: int)
    requires
        drive_v_bunce(v, a, b),
        drive_v_bunce(v, b, c),
    ensures
        drive_v_bunce(v, a, c),
{
    let (la, lb, lc) = (v.lekce@[a], v.lekce@[b], v.lekce@[c]);
    if cislo_tydne(la.tyden) == cislo_tydne(lb.tyden) && cislo_tydne(lb.tyden) == cislo_tydne(lc.tyden) {
        if lex_mensi(la.skupina@, lb.skupina@) && lex_mensi(lb.skupina@, lc.skupina@) {
            lemma_lex_tranzitivni(la.skupina@, lb.skupina@, lc.skupina@);
        }
        if la.skupina@ == lb.skupina@ && lb.skupina@ == lc.skupina@ {
            if lex_mensi(la.predmet@, lb.predmet@) && lex_mensi(lb.predmet@, lc.predmet@) {
                lemma_lex_tranzitivni(la.predmet@, lb.predmet@, lc.predmet@);
            }
        }
    }
}

/// Dvě posloupnosti ostře seřazené podle asymetrické relace `lt` se stejnými prvky
/// jsou stejné.
proof fn lemma_serazene_stejne(lt: spec_fn(usize, usize) -> bool, s1: Seq<usize>, s2: Seq<usize>)
    requires
        forall|x: usize, y: usize| !(#[trigger] lt(x, y) && #[trigger] lt(y, x)),
        forall|a: int, b: int| 0 <= a < b < s1.len() ==> lt(#[trigger] s1[a], #[trigger] s1[b]),
        forall|a: int, b: int| 0 <= a < b < s2.len() ==> lt(#[trigger] s2[a], #[trigger] s2[b]),
        forall|x: usize| s1.contains(x) <==> s2.contains(x),
    ensures
        s1 == s2,
    decreases s1.len() + s2.len(),
{
    if s1.len() == 0 {
        if s2.len() > 0 {
            assert(s2.contains(s2[0]));
        }
        assert(s1 =~= s2);
    } else if s2.len() == 0 {
        assert(s1.contains(s1[0]));
    } else {
        let x = s1[0];
        let y = s2[0];
        assert(s1.contains(x));
        assert(s2.contains(y));
        if x != y {
            let j = choose|j: int| 0 <= j < s2.len() && s2[j] == x;
            let i = choose|i: int| 0 <= i < s1.len() && s1[i] == y;
            assert(lt(s2[0], s2[j]));
            assert(lt(s1[0], s1[i]));
        }
        assert forall|z: usize| s1.drop_first().contains(z) <==> s2.drop_first().contains(z) by {
            if s1.drop_first().contains(z) {
                let i = choose|i: int| 0 <= i < s1.drop_first().len() && s1.drop_first()[i] == z;
                assert(s1[i + 1] == z);
                assert(lt(s1[0], s1[i + 1]));
                assert(s2.contains(z));
                let j = choose|j: int| 0 <= j < s2.len() && s2[j] == z;
                if j == 0 {
                    assert(lt(x, x));
                }
                assert(s2.drop_first()[j - 1] == z);
            }
            if s2.drop_first().contains(z) {
                let i = choose|i: int| 0 <= i < s2.drop_first().len() && s2.drop_first()[i] == z;
                assert(s2[i + 1] == z);
                assert(lt(s2[0], s2[i + 1]));
                assert(s1.contains(z));
                let j = choose|j: int| 0 <= j < s1.len() && s1[j] == z;
                if j == 0 {
                    assert(lt(y, y));
                }
                assert(s1.drop_first()[j - 1] == z);
            }
        }
        lemma_serazene_stejne(lt, s1.drop_first(), s2.drop_first());
        assert(s1 =~= seq![x] + s1.drop_first());
        assert(s2 =~= seq![y] + s2.drop_first());
    }
}

proof fn lemma_bunka_jednoznacna(v: Vysledek, p: Pohled, den: int, slot: int, s: Seq<usize>)
    requires
        obsah_bunky(v, p, den, slot, s),
    ensures
        bunka(v, p, den, slot) == s,
{
    let b = bunka(v, p, den, slot);
    assert(obsah_bunky(v, p, den, slot, b));
    assert forall|x: usize| s.contains(x) <==> b.contains(x) by {
        if s.contains(x) {
            let k = choose|k: int| 0 <= k < s.len() && s[k] == x;
            assert(s[k] < v.lekce@.len());
            assert(probiha(v, x as int, den * SLOTU + slot));
        }
        if b.contains(x) {
            let k = choose|k: int| 0 <= k < b.len() && b[k] == x;
            assert(b[k] < v.lekce@.len());
            assert(probiha(v, x as int, den * SLOTU + slot));
        }
    }
    let lt = |x: usize, y: usize| drive_v_bunce(v, x as int, y as int);
    assert forall|x: usize, y: usize| !(#[trigger] lt(x, y) && #[trigger] lt(y, x)) by {
        lemma_drive_asym(v, x as int, y as int);
    }
    lemma_serazene_stejne(lt, s, b);
}

/// Je lekce `a` v buňce před lekcí `b`?
fn drive_exec(v: &Vysledek, a: usize, b: usize) -> (r: bool)
    requires
        a < v.lekce@.len(),
        b < v.lekce@.len(),
    ensures
        r == drive_v_bunce(*v, a as int, b as int),
{
    let la = &v.lekce[a];
    let lb = &v.lekce[b];
    let ta: u8 = match la.tyden {
        Tyden::Oba => 0,
        Tyden::L => 1,
        Tyden::S => 2,
    };
    let tb: u8 = match lb.tyden {
        Tyden::Oba => 0,
        Tyden::L => 1,
        Tyden::S => 2,
    };
    if ta != tb {
        return ta < tb;
    }
    let cs = porovnej(la.skupina.as_str(), lb.skupina.as_str());
    if cs != 0 {
        return cs < 0;
    }
    let cp = porovnej(la.predmet.as_str(), lb.predmet.as_str());
    if cp != 0 {
        return cp < 0;
    }
    a < b
}

/// Lekce, které v daném pohledu probíhají v buňce (den, slot) – včetně pokračování
/// dvouhodinovek – seřazené podle týdne, skupiny a předmětu (při shodě v pořadí lekcí).
pub fn lekce_v_bunce(v: &Vysledek, pohled: &Pohled, den: usize, slot: usize) -> (r: Vec<usize>)
    requires
        vysledek_uplny(*v),
        den < DNY,
        slot < SLOTU,
    ensures
        obsah_bunky(*v, *pohled, den as int, slot as int, r@),
        r@ == bunka(*v, *pohled, den as int, slot as int),
{
    let t = den * SLOTU + slot;
    let mut zbyva: Vec<usize> = Vec::new();
    let mut i: usize = 0;
    while i < v.lekce.len()
        invariant
            i <= v.lekce@.len(),
            vysledek_uplny(*v),
            t == den * SLOTU + slot,
            forall|j: int| 0 <= j < i ==> (zbyva@.contains(j as usize) <==> probiha(*v, j, t as int) && v_pohledu(*pohled, *v, j)),
            forall|k: int| 0 <= k < zbyva@.len() ==> (#[trigger] zbyva@[k]) < i,
            forall|a: int, b: int| 0 <= a < b < zbyva@.len() ==> (#[trigger] zbyva@[a]) < (#[trigger] zbyva@[b]),
        decreases v.lekce@.len() - i,
    {
        let bezi = match v.slot[i] {
            Some(s) => (s as usize) <= t && t < (s as usize) + (v.lekce[i].len as usize),
            None => false,
        };
        let ghost z0 = zbyva@;
        if bezi && pohled.obsahuje(v, i) {
            zbyva.push(i);
        }
        proof {
            assert forall|j: int| 0 <= j < i + 1 implies (zbyva@.contains(j as usize) <==> probiha(*v, j, t as int) && v_pohledu(
                *pohled,
                *v,
                j,
            )) by {
                crate::hledani::lemma_contains_push(z0, i, j as usize);
                if z0.contains(i) {
                    let k = choose|k: int| 0 <= k < z0.len() && z0[k] == i;
                }
            }
        }
        i = i + 1;
    }
    // Stabilní řazení výběrem první nejmenší.
    let ghost mnozina = zbyva@;
    let mut r: Vec<usize> = Vec::new();
    while zbyva.len() > 0
        invariant
            vysledek_uplny(*v),
            forall|x: usize| (r@.contains(x) || zbyva@.contains(x)) <==> mnozina.contains(x),
            forall|k: int| 0 <= k < zbyva@.len() ==> (#[trigger] zbyva@[k]) < v.lekce@.len(),
            forall|k: int| 0 <= k < r@.len() ==> (#[trigger] r@[k]) < v.lekce@.len(),
            forall|a: int, b: int| 0 <= a < b < zbyva@.len() ==> (#[trigger] zbyva@[a]) < (#[trigger] zbyva@[b]),
            forall|a: int, b: int| 0 <= a < b < r@.len() ==> drive_v_bunce(*v, #[trigger] r@[a] as int, #[trigger] r@[b] as int),
            forall|a: int, b: int|
                0 <= a < r@.len() && 0 <= b < zbyva@.len() ==> drive_v_bunce(*v, #[trigger] r@[a] as int, #[trigger] zbyva@[b] as int),
        decreases zbyva@.len(),
    {
        let mut nej: usize = 0;
        let mut k: usize = 1;
        while k < zbyva.len()
            invariant
                1 <= k <= zbyva@.len(),
                nej < k,
                forall|j: int| 0 <= j < zbyva@.len() ==> (#[trigger] zbyva@[j]) < v.lekce@.len(),
                forall|a: int, b: int| 0 <= a < b < zbyva@.len() ==> (#[trigger] zbyva@[a]) < (#[trigger] zbyva@[b]),
                forall|j: int| 0 <= j < k && j != nej ==> drive_v_bunce(*v, zbyva@[nej as int] as int, #[trigger] zbyva@[j] as int),
            decreases zbyva@.len() - k,
        {
            if drive_exec(v, zbyva[k], zbyva[nej]) {
                proof {
                    assert forall|j: int| 0 <= j < k + 1 && j != k implies drive_v_bunce(*v, zbyva@[k as int] as int, #[trigger] zbyva@[j] as int) by {
                        if j != nej {
                            lemma_drive_tranz(*v, zbyva@[k as int] as int, zbyva@[nej as int] as int, zbyva@[j] as int);
                        }
                    }
                }
                nej = k;
            } else {
                proof {
                    assert(zbyva@[nej as int] < zbyva@[k as int]);
                    lemma_drive_uplne(*v, zbyva@[k as int] as int, zbyva@[nej as int] as int);
                }
            }
            k = k + 1;
        }
        let ghost z0 = zbyva@;
        let ghost r0 = r@;
        let m = zbyva.remove(nej);
        r.push(m);
        proof {
            assert(r@ == r0.push(m));
            assert forall|j: int| 0 <= j < zbyva@.len() implies #[trigger] zbyva@[j] == (if j < nej {
                z0[j]
            } else {
                z0[j + 1]
            }) by {}
            assert forall|a: int, b: int| 0 <= a < b < r@.len() implies drive_v_bunce(*v, #[trigger] r@[a] as int, #[trigger] r@[b] as int) by {
                if b < r0.len() {
                    assert(drive_v_bunce(*v, r0[a] as int, r0[b] as int));
                } else {
                    assert(drive_v_bunce(*v, r0[a] as int, z0[nej as int] as int));
                }
            }
            assert forall|a: int, b: int|
                0 <= a < r@.len() && 0 <= b < zbyva@.len() implies drive_v_bunce(*v, #[trigger] r@[a] as int, #[trigger] zbyva@[b] as int) by {
                let bb = if b < nej { b } else { b + 1 };
                if a < r0.len() {
                    assert(drive_v_bunce(*v, r0[a] as int, z0[bb] as int));
                } else {
                    assert(drive_v_bunce(*v, z0[nej as int] as int, z0[bb] as int));
                }
            }
            assert forall|a: int, b: int| 0 <= a < b < zbyva@.len() implies (#[trigger] zbyva@[a]) < (#[trigger] zbyva@[b]) by {
                let aa = if a < nej { a } else { a + 1 };
                let bb = if b < nej { b } else { b + 1 };
                assert(z0[aa] < z0[bb]);
            }
            assert forall|x: usize| (r@.contains(x) || zbyva@.contains(x)) <==> mnozina.contains(x) by {
                crate::hledani::lemma_contains_push(r0, m, x);
                if zbyva@.contains(x) {
                    let j = choose|j: int| 0 <= j < zbyva@.len() && zbyva@[j] == x;
                    let jj = if j < nej { j } else { j + 1 };
                    assert(z0[jj] == x);
                }
                if z0.contains(x) && x != m {
                    let j = choose|j: int| 0 <= j < z0.len() && z0[j] == x;
                    if j < nej {
                        assert(zbyva@[j] == x);
                    } else {
                        assert(j != nej);
                        assert(zbyva@[j - 1] == x);
                    }
                }
            }
        }
    }
    proof {
        assert forall|j: int| 0 <= j < v.lekce@.len() implies (r@.contains(j as usize) <==> probiha(*v, j, den * SLOTU + slot) && v_pohledu(
            *pohled,
            *v,
            j,
        )) by {
            assert(probiha(*v, j, den * SLOTU + slot) == probiha(*v, j, t as int));
            if r@.contains(j as usize) {
                assert(mnozina.contains(j as usize));
            }
            if mnozina.contains(j as usize) {
                if zbyva@.contains(j as usize) {
                    let k = choose|k: int| 0 <= k < zbyva@.len() && zbyva@[k] == j as usize;
                }
            }
        }
        lemma_bunka_jednoznacna(*v, *pohled, den as int, slot as int, r@);
    }
    r
}

/// HTML podoba znaku.
pub open spec fn esc_znak(c: char) -> Seq<char> {
    if c == '&' {
        seq!['&', 'a', 'm', 'p', ';']
    } else if c == '<' {
        seq!['&', 'l', 't', ';']
    } else if c == '>' {
        seq!['&', 'g', 't', ';']
    } else if c == '"' {
        seq!['&', 'q', 'u', 'o', 't', ';']
    } else {
        seq![c]
    }
}

/// Text s nahrazenými znaky `& < > "` pro HTML a XML.
pub open spec fn esc_spec(s: Seq<char>) -> Seq<char>
    decreases s.len(),
{
    if s.len() == 0 {
        Seq::empty()
    } else {
        esc_spec(s.drop_last()) + esc_znak(s.last())
    }
}

pub fn esc(s: &str) -> (r: String)
    ensures
        r@ == esc_spec(s@),
{
    let z = znaky(s);
    let mut r = String::new();
    let mut i: usize = 0;
    while i < z.len()
        invariant
            i <= z@.len(),
            z@ == s@,
            r@ == esc_spec(s@.take(i as int)),
        decreases z@.len() - i,
    {
        let c = z[i];
        proof {
            assert(s@.take(i + 1).drop_last() =~= s@.take(i as int));
            assert(s@.take(i + 1).last() == c);
            reveal_strlit("&amp;");
            reveal_strlit("&lt;");
            reveal_strlit("&gt;");
            reveal_strlit("&quot;");
            assert("&amp;"@ =~= seq!['&', 'a', 'm', 'p', ';']);
            assert("&lt;"@ =~= seq!['&', 'l', 't', ';']);
            assert("&gt;"@ =~= seq!['&', 'g', 't', ';']);
            assert("&quot;"@ =~= seq!['&', 'q', 'u', 'o', 't', ';']);
        }
        let ghost r0 = r@;
        if c == '&' {
            pripoj(&mut r, "&amp;");
        } else if c == '<' {
            pripoj(&mut r, "&lt;");
        } else if c == '>' {
            pripoj(&mut r, "&gt;");
        } else if c == '"' {
            pripoj(&mut r, "&quot;");
        } else {
            pridej_znak(&mut r, c);
            proof {
                assert(r@ =~= r0 + seq![c]);
            }
        }
        i = i + 1;
    }
    proof {
        assert(s@.take(z@.len() as int) =~= s@);
    }
    r
}

/// Zdvojené uvozovky (pole CSV).
pub open spec fn zdvoj_uvozovky(s: Seq<char>) -> Seq<char>
    decreases s.len(),
{
    if s.len() == 0 {
        Seq::empty()
    } else {
        zdvoj_uvozovky(s.drop_last()) + (if s.last() == '"' {
            seq!['"', '"']
        } else {
            seq![s.last()]
        })
    }
}

/// Pole CSV: se středníkem, uvozovkou nebo koncem řádku v uvozovkách (uvozovky
/// zdvojené), jinak beze změny.
pub open spec fn csv_pole_spec(s: Seq<char>) -> Seq<char> {
    if s.contains(';') || s.contains('"') || s.contains('\n') {
        seq!['"'] + zdvoj_uvozovky(s) + seq!['"']
    } else {
        s
    }
}

fn csv_pole(s: &str) -> (r: String)
    ensures
        r@ == csv_pole_spec(s@),
{
    let z = znaky(s);
    let mut zvlastni = false;
    let mut dvoj = String::new();
    let mut i: usize = 0;
    while i < z.len()
        invariant
            i <= z@.len(),
            z@ == s@,
            dvoj@ == zdvoj_uvozovky(s@.take(i as int)),
            zvlastni == (s@.take(i as int).contains(';') || s@.take(i as int).contains('"') || s@.take(i as int).contains('\n')),
        decreases z@.len() - i,
    {
        let c = z[i];
        proof {
            assert(s@.take(i + 1).drop_last() =~= s@.take(i as int));
            assert(s@.take(i + 1) =~= s@.take(i as int).push(c));
            crate::hledani::lemma_contains_push(s@.take(i as int), c, ';');
            crate::hledani::lemma_contains_push(s@.take(i as int), c, '"');
            crate::hledani::lemma_contains_push(s@.take(i as int), c, '\n');
        }
        let ghost d0 = dvoj@;
        if c == ';' || c == '"' || c == '\n' {
            zvlastni = true;
        }
        if c == '"' {
            pridej_znak(&mut dvoj, '"');
            pridej_znak(&mut dvoj, '"');
            proof {
                assert(dvoj@ =~= d0 + seq!['"', '"']);
            }
        } else {
            pridej_znak(&mut dvoj, c);
            proof {
                assert(dvoj@ =~= d0 + seq![c]);
            }
        }
        i = i + 1;
    }
    proof {
        assert(s@.take(z@.len() as int) =~= s@);
    }
    if zvlastni {
        let mut r = String::new();
        pridej_znak(&mut r, '"');
        pripoj(&mut r, dvoj.as_str());
        pridej_znak(&mut r, '"');
        proof {
            assert(r@ =~= seq!['"'] + zdvoj_uvozovky(s@) + seq!['"']);
        }
        r
    } else {
        s.to_owned()
    }
}

/// Název třídy podle id (neznámá třída: id).
pub open spec fn nazev_tridy_spec(skola: Skola, id: Seq<char>) -> Seq<char> {
    let i = index_tridy(skola.tridy@, id);
    if i >= 0 {
        skola.tridy@[i].nazev@
    } else {
        id
    }
}

/// Názvy tříd spojené „+“.
pub open spec fn tridy_kratce_spec(skola: Skola, tridy: Seq<String>) -> Seq<char> {
    spojeni_odd(tridy.map_values(|t: String| nazev_tridy_spec(skola, t@)), seq!['+'])
}

pub fn tridy_kratce(skola: &Skola, tridy: &Vec<String>) -> (r: String)
    ensures
        r@ == tridy_kratce_spec(*skola, tridy@),
{
    let mut nazvy: Vec<String> = Vec::new();
    let mut i: usize = 0;
    while i < tridy.len()
        invariant
            i <= tridy@.len(),
            nazvy@.map_values(|x: String| x@) == tridy@.take(i as int).map_values(|t: String| nazev_tridy_spec(*skola, t@)),
        decreases tridy@.len() - i,
    {
        let ghost n0 = nazvy@;
        let n = skola.nazev_tridy(tridy[i].as_str());
        nazvy.push(n);
        proof {
            assert(nazvy@.map_values(|x: String| x@) =~= n0.map_values(|x: String| x@).push(n@));
            assert(tridy@.take(i + 1).map_values(|t: String| nazev_tridy_spec(*skola, t@)) =~= tridy@.take(i as int).map_values(
                |t: String| nazev_tridy_spec(*skola, t@),
            ).push(nazev_tridy_spec(*skola, tridy@[i as int]@)));
        }
        i = i + 1;
    }
    proof {
        assert(tridy@.take(tridy@.len() as int) =~= tridy@);
        reveal_strlit("+");
        assert("+"@ =~= seq!['+']);
    }
    crate::text::spoj_oddelene(&nazvy, "+")
}

/// Týden lekce v exportu: prázdný, „L“, nebo „S“.
pub open spec fn tyden_text(t: Tyden) -> Seq<char> {
    match t {
        Tyden::Oba => ""@,
        Tyden::L => "L"@,
        Tyden::S => "S"@,
    }
}

fn tyden_str(t: Tyden) -> (r: &'static str)
    ensures
        r@ == tyden_text(t),
{
    match t {
        Tyden::Oba => "",
        Tyden::L => "L",
        Tyden::S => "S",
    }
}

/// Místnost lekce (prázdná, není-li přidělena).
pub open spec fn mistnost_text(v: Vysledek, i: int) -> Seq<char> {
    match v.mistnost@[i] {
        Some(m) => m@,
        None => Seq::empty(),
    }
}

fn mistnost_str(v: &Vysledek, i: usize) -> (r: String)
    requires
        i < v.mistnost@.len(),
    ensures
        r@ == mistnost_text(*v, i as int),
{
    match &v.mistnost[i] {
        Some(m) => m.clone(),
        None => String::new(),
    }
}

/// Pole řádku CSV: třída, den, hodina, čas, předmět, učitel, místnost, skupina,
/// počet žáků, týden.
pub open spec fn pole_csv(v: Vysledek, t: Seq<char>, d: int, k: int, i: int) -> Seq<Seq<char>> {
    let l = v.lekce@[i];
    seq![
        t,
        crate::data::nazev_dne_spec(d),
        crate::text::desitkove(k as nat),
        crate::data::cas_zacatku_spec(k),
        l.predmet@,
        l.ucitel@,
        mistnost_text(v, i),
        l.skupina@,
        crate::text::desitkove(crate::solver::realni_zaci(v, i)),
        tyden_text(l.tyden),
    ]
}

/// Řádek CSV jedné lekce.
pub open spec fn radek_csv(v: Vysledek, t: Seq<char>, d: int, k: int, i: int) -> Seq<char> {
    spojeni_odd(pole_csv(v, t, d, k, i).map_values(|p: Seq<char>| csv_pole_spec(p)), ";"@) + "\r\n"@
}

/// Řádky CSV lekcí buňky.
pub open spec fn radky_csv(v: Vysledek, t: Seq<char>, d: int, k: int, s: Seq<usize>) -> Seq<char>
    decreases s.len(),
{
    if s.len() == 0 {
        Seq::empty()
    } else {
        radky_csv(v, t, d, k, s.drop_last()) + radek_csv(v, t, d, k, s.last() as int)
    }
}

/// CSV prvních `n` hodin dne `d` třídy `t`.
pub open spec fn csv_dne(v: Vysledek, t: String, d: int, n: int) -> Seq<char>
    decreases n,
{
    if n <= 0 {
        Seq::empty()
    } else {
        csv_dne(v, t, d, n - 1) + radky_csv(v, t@, d, n - 1, bunka(v, Pohled::Trida(t), d, n - 1))
    }
}

/// CSV prvních `n` dní třídy `t`.
pub open spec fn csv_tridy(v: Vysledek, t: String, n: int) -> Seq<char>
    decreases n,
{
    if n <= 0 {
        Seq::empty()
    } else {
        csv_tridy(v, t, n - 1) + csv_dne(v, t, n - 1, SLOTU as int)
    }
}

/// CSV tříd v pořadí číselníku.
pub open spec fn csv_trid(v: Vysledek, tridy: Seq<crate::data::Trida>) -> Seq<char>
    decreases tridy.len(),
{
    if tridy.len() == 0 {
        Seq::empty()
    } else {
        csv_trid(v, tridy.drop_last()) + csv_tridy(v, tridy.last().id, DNY as int)
    }
}

/// Řádek CSV z polí: pole (upravená pro CSV) oddělená středníkem a konec řádku.
pub open spec fn radek_z_poli(f: Seq<Seq<char>>) -> Seq<char> {
    spojeni_odd(f.map_values(|p: Seq<char>| csv_pole_spec(p)), ";"@) + "\r\n"@
}

/// Názvy sloupců CSV v pořadí hlavičky.
pub open spec fn nazvy_sloupcu_csv() -> Seq<Seq<char>> {
    seq!["trida"@, "den"@, "slot"@, "cas"@, "predmet"@, "ucitel"@, "mistnost"@, "skupina"@, "pocet_zaku"@, "tyden"@]
}

/// Zákon CSV: hlavička jsou názvy sloupců oddělené středníkem (za BOM) a každý řádek lekce
/// jsou pole oddělená středníkem, po jednom pro každý sloupec hlavičky: ve sloupci `trida`
/// třída, `den` název dne, `slot` číslo hodiny, `predmet` předmět lekce, `ucitel` její učitel,
/// `mistnost` místnost, `skupina` skupina, `pocet_zaku` počet skutečných žáků a `tyden` týden.
pub proof fn zakon_sloupce_csv(v: Vysledek, t: Seq<char>, d: int, k: int, i: int)
    ensures
        hlavicka_csv() == "\u{FEFF}"@ + spojeni_odd(nazvy_sloupcu_csv(), ";"@) + "\r\n"@,
        exists|f: Seq<Seq<char>>|
            f.len() == nazvy_sloupcu_csv().len() && radek_csv(v, t, d, k, i) == #[trigger] radek_z_poli(f) && forall|c: int|
                0 <= c < f.len() ==> {
                    let n = #[trigger] nazvy_sloupcu_csv()[c];
                    &&& n == "trida"@ ==> f[c] == t
                    &&& n == "den"@ ==> f[c] == crate::data::nazev_dne_spec(d)
                    &&& n == "slot"@ ==> f[c] == crate::text::desitkove(k as nat)
                    &&& n == "predmet"@ ==> f[c] == v.lekce@[i].predmet@
                    &&& n == "ucitel"@ ==> f[c] == v.lekce@[i].ucitel@
                    &&& n == "mistnost"@ ==> f[c] == mistnost_text(v, i)
                    &&& n == "skupina"@ ==> f[c] == v.lekce@[i].skupina@
                    &&& n == "pocet_zaku"@ ==> f[c] == crate::text::desitkove(crate::solver::realni_zaci(v, i))
                    &&& n == "tyden"@ ==> f[c] == tyden_text(v.lekce@[i].tyden)
                },
{
    reveal_strlit("\u{FEFF}trida;den;slot;cas;predmet;ucitel;mistnost;skupina;pocet_zaku;tyden\r\n");
    reveal_strlit("\u{FEFF}");
    reveal_strlit(";");
    reveal_strlit("\r\n");
    reveal_strlit("trida");
    reveal_strlit("den");
    reveal_strlit("slot");
    reveal_strlit("cas");
    reveal_strlit("predmet");
    reveal_strlit("ucitel");
    reveal_strlit("mistnost");
    reveal_strlit("skupina");
    reveal_strlit("pocet_zaku");
    reveal_strlit("tyden");
    reveal_with_fuel(spojeni_odd, 11);
    assert(hlavicka_csv() =~= "\u{FEFF}"@ + spojeni_odd(nazvy_sloupcu_csv(), ";"@) + "\r\n"@);
    assert("trida"@[1] != "tyden"@[1]);
    assert("den"@[0] != "cas"@[0]);
    assert("predmet"@[0] != "skupina"@[0]);
    let f = pole_csv(v, t, d, k, i);
    let nz = nazvy_sloupcu_csv();
    assert forall|c: int| 0 <= c < f.len() implies {
        let n = #[trigger] nazvy_sloupcu_csv()[c];
        &&& n == "trida"@ ==> f[c] == t
        &&& n == "den"@ ==> f[c] == crate::data::nazev_dne_spec(d)
        &&& n == "slot"@ ==> f[c] == crate::text::desitkove(k as nat)
        &&& n == "predmet"@ ==> f[c] == v.lekce@[i].predmet@
        &&& n == "ucitel"@ ==> f[c] == v.lekce@[i].ucitel@
        &&& n == "mistnost"@ ==> f[c] == mistnost_text(v, i)
        &&& n == "skupina"@ ==> f[c] == v.lekce@[i].skupina@
        &&& n == "pocet_zaku"@ ==> f[c] == crate::text::desitkove(crate::solver::realni_zaci(v, i))
        &&& n == "tyden"@ ==> f[c] == tyden_text(v.lekce@[i].tyden)
    } by {
        if c == 0 {
            assert(nz[0] == "trida"@);
        } else if c == 1 {
            assert(nz[1] == "den"@);
        } else if c == 2 {
            assert(nz[2] == "slot"@);
        } else if c == 3 {
            assert(nz[3] == "cas"@);
        } else if c == 4 {
            assert(nz[4] == "predmet"@);

        } else if c == 5 {
            assert(nz[5] == "ucitel"@);
        } else if c == 6 {
            assert(nz[6] == "mistnost"@);
        } else if c == 7 {
            assert(nz[7] == "skupina"@);
        } else if c == 8 {
            assert(nz[8] == "pocet_zaku"@);
        } else if c == 9 {
            assert(nz[9] == "tyden"@);
        }
    }
    assert(radek_csv(v, t, d, k, i) == radek_z_poli(f));
}

/// Hlavička CSV (s BOM).
pub open spec fn hlavicka_csv() -> Seq<char> {
    "\u{FEFF}trida;den;slot;cas;predmet;ucitel;mistnost;skupina;pocet_zaku;tyden\r\n"@
}

fn radek_csv_exec(out: &mut String, v: &Vysledek, t: &String, d: usize, k: usize, i: usize)
    requires
        vysledek_uplny(*v),
        i < v.lekce@.len(),
        d < DNY,
        k < SLOTU,
    ensures
        final(out)@ == old(out)@ + radek_csv(*v, t@, d as int, k as int, i as int),
{
    let l = &v.lekce[i];
    let den = crate::data::nazev_dne(d);
    let cas = crate::data::cas_zacatku(k);
    let kk = crate::text::cislo(k as u64);
    let mist = mistnost_str(v, i);
    let n = v.pocet_realnych_zaku(i);
    let nn = crate::text::cislo(n as u64);
    let ty = tyden_str(l.tyden);
    let pole = vec![
        csv_pole(t.as_str()),
        csv_pole(den),
        csv_pole(kk.as_str()),
        csv_pole(cas),
        csv_pole(l.predmet.as_str()),
        csv_pole(l.ucitel.as_str()),
        csv_pole(mist.as_str()),
        csv_pole(l.skupina.as_str()),
        csv_pole(nn.as_str()),
        csv_pole(ty),
    ];
    let radek = crate::text::spoj_oddelene(&pole, ";");
    proof {
        assert(pole@.map_values(|x: String| x@) =~= pole_csv(*v, t@, d as int, k as int, i as int).map_values(
            |p: Seq<char>| csv_pole_spec(p),
        ));
    }
    pripoj(out, radek.as_str());
    pripoj(out, "\r\n");
}

fn csv_bunky(out: &mut String, v: &Vysledek, t: &String, d: usize, k: usize)
    requires
        vysledek_uplny(*v),
        d < DNY,
        k < SLOTU,
    ensures
        final(out)@ == old(out)@ + radky_csv(*v, t@, d as int, k as int, bunka(*v, Pohled::Trida(*t), d as int, k as int)),
{
    let p = Pohled::Trida(t.clone());
    let b = lekce_v_bunce(v, &p, d, k);
    let ghost o = out@;
    let mut q: usize = 0;
    while q < b.len()
        invariant
            q <= b@.len(),
            vysledek_uplny(*v),
            d < DNY,
            k < SLOTU,
            forall|j: int| 0 <= j < b@.len() ==> (#[trigger] b@[j]) < v.lekce@.len(),
            out@ == o + radky_csv(*v, t@, d as int, k as int, b@.take(q as int)),
        decreases b@.len() - q,
    {
        proof {
            assert(b@.take(q + 1).drop_last() =~= b@.take(q as int));
        }
        radek_csv_exec(out, v, t, d, k, b[q]);
        q = q + 1;
    }
    proof {
        assert(b@.take(b@.len() as int) =~= b@);
    }
}

fn csv_den_exec(out: &mut String, v: &Vysledek, t: &String, d: usize)
    requires
        vysledek_uplny(*v),
        d < DNY,
    ensures
        final(out)@ == old(out)@ + csv_dne(*v, *t, d as int, SLOTU as int),
{
    let ghost o = out@;
    let mut k: usize = 0;
    while k < SLOTU
        invariant
            k <= SLOTU,
            vysledek_uplny(*v),
            d < DNY,
            out@ == o + csv_dne(*v, *t, d as int, k as int),
        decreases SLOTU - k,
    {
        csv_bunky(out, v, t, d, k);
        k = k + 1;
    }
}

fn csv_trida_exec(out: &mut String, v: &Vysledek, t: &String)
    requires
        vysledek_uplny(*v),
    ensures
        final(out)@ == old(out)@ + csv_tridy(*v, *t, DNY as int),
{
    let ghost o = out@;
    let mut d: usize = 0;
    while d < DNY
        invariant
            d <= DNY,
            vysledek_uplny(*v),
            out@ == o + csv_tridy(*v, *t, d as int),
        decreases DNY - d,
    {
        csv_den_exec(out, v, t, d);
        d = d + 1;
    }
}

/// CSV (UTF-8 s BOM, středníky): hlavička a jeden řádek na třídu × hodinu × lekci,
/// po třídách, dnech a hodinách, v buňce v pořadí `lekce_v_bunce`.
pub fn csv(skola: &Skola, v: &Vysledek) -> (r: String)
    requires
        vysledek_uplny(*v),
    ensures
        r@ == hlavicka_csv() + csv_trid(*v, skola.tridy@),
{
    let mut s = String::new();
    pripoj(&mut s, "\u{FEFF}trida;den;slot;cas;predmet;ucitel;mistnost;skupina;pocet_zaku;tyden\r\n");
    let mut i: usize = 0;
    while i < skola.tridy.len()
        invariant
            i <= skola.tridy@.len(),
            vysledek_uplny(*v),
            s@ == hlavicka_csv() + csv_trid(*v, skola.tridy@.take(i as int)),
        decreases skola.tridy@.len() - i,
    {
        proof {
            assert(skola.tridy@.take(i + 1).drop_last() =~= skola.tridy@.take(i as int));
        }
        csv_trida_exec(&mut s, v, &skola.tridy[i].id);
        i = i + 1;
    }
    proof {
        assert(skola.tridy@.take(skola.tridy@.len() as int) =~= skola.tridy@);
    }
    s
}

/// Řádek XML jedné lekce.
pub open spec fn radek_xml(v: Vysledek, k: int, i: int) -> Seq<char> {
    let l = v.lekce@[i];
    "      <hodina slot=\""@ + crate::text::desitkove(k as nat) + "\" cas=\""@ + crate::data::cas_zacatku_spec(k)
        + "\" predmet=\""@ + esc_spec(l.predmet@) + "\" ucitel=\""@ + esc_spec(l.ucitel@) + "\" mistnost=\""@
        + esc_spec(mistnost_text(v, i)) + "\" skupina=\""@ + esc_spec(l.skupina@) + "\" tyden=\""@ + tyden_text(
        l.tyden,
    ) + "\" zaku=\""@ + crate::text::desitkove(crate::solver::realni_zaci(v, i)) + "\"/>\n"@
}

/// Řádky XML lekcí buňky.
pub open spec fn radky_xml(v: Vysledek, k: int, s: Seq<usize>) -> Seq<char>
    decreases s.len(),
{
    if s.len() == 0 {
        Seq::empty()
    } else {
        radky_xml(v, k, s.drop_last()) + radek_xml(v, k, s.last() as int)
    }
}

/// XML prvních `n` hodin dne `d` třídy `t`.
pub open spec fn xml_hodin(v: Vysledek, t: String, d: int, n: int) -> Seq<char>
    decreases n,
{
    if n <= 0 {
        Seq::empty()
    } else {
        xml_hodin(v, t, d, n - 1) + radky_xml(v, n - 1, bunka(v, Pohled::Trida(t), d, n - 1))
    }
}

/// XML dne `d` třídy `t`.
pub open spec fn xml_dne(v: Vysledek, t: String, d: int) -> Seq<char> {
    "    <den index=\""@ + crate::text::desitkove(d as nat) + "\" nazev=\""@ + crate::data::nazev_dne_spec(d) + "\">\n"@
        + xml_hodin(v, t, d, SLOTU as int) + "    </den>\n"@
}

/// XML prvních `n` dní třídy `t`.
pub open spec fn xml_dni(v: Vysledek, t: String, n: int) -> Seq<char>
    decreases n,
{
    if n <= 0 {
        Seq::empty()
    } else {
        xml_dni(v, t, n - 1) + xml_dne(v, t, n - 1)
    }
}

/// XML třídy.
pub open spec fn xml_tridy(v: Vysledek, t: Trida) -> Seq<char> {
    "  <trida id=\""@ + esc_spec(t.id@) + "\" nazev=\""@ + esc_spec(t.nazev@) + "\">\n"@ + xml_dni(v, t.id, DNY as int)
        + "  </trida>\n"@
}

/// XML tříd v pořadí číselníku.
pub open spec fn xml_trid(v: Vysledek, tridy: Seq<Trida>) -> Seq<char>
    decreases tridy.len(),
{
    if tridy.len() == 0 {
        Seq::empty()
    } else {
        xml_trid(v, tridy.drop_last()) + xml_tridy(v, tridy.last())
    }
}

/// Celý dokument XML.
pub open spec fn xml_spec(skola: Skola, v: Vysledek) -> Seq<char> {
    "<?xml version=\"1.0\" encoding=\"UTF-8\"?>\n<rozvrh rok=\""@ + esc_spec(v.rok@) + "\">\n"@ + xml_trid(v, skola.tridy@)
        + "</rozvrh>\n"@
}

fn radek_xml_exec(out: &mut String, v: &Vysledek, k: usize, i: usize)
    requires
        vysledek_uplny(*v),
        i < v.lekce@.len(),
        k < SLOTU,
    ensures
        final(out)@ == old(out)@ + radek_xml(*v, k as int, i as int),
{
    let l = &v.lekce[i];
    let mut r = "      <hodina slot=\"".to_owned();
    pripoj(&mut r, crate::text::cislo(k as u64).as_str());
    pripoj(&mut r, "\" cas=\"");
    pripoj(&mut r, crate::data::cas_zacatku(k));
    pripoj(&mut r, "\" predmet=\"");
    pripoj(&mut r, esc(l.predmet.as_str()).as_str());
    pripoj(&mut r, "\" ucitel=\"");
    pripoj(&mut r, esc(l.ucitel.as_str()).as_str());
    pripoj(&mut r, "\" mistnost=\"");
    pripoj(&mut r, esc(mistnost_str(v, i).as_str()).as_str());
    pripoj(&mut r, "\" skupina=\"");
    pripoj(&mut r, esc(l.skupina.as_str()).as_str());
    pripoj(&mut r, "\" tyden=\"");
    pripoj(&mut r, tyden_str(l.tyden));
    pripoj(&mut r, "\" zaku=\"");
    let n = v.pocet_realnych_zaku(i);
    pripoj(&mut r, crate::text::cislo(n as u64).as_str());
    pripoj(&mut r, "\"/>\n");
    pripoj(out, r.as_str());
}

fn xml_bunky(out: &mut String, v: &Vysledek, t: &String, d: usize, k: usize)
    requires
        vysledek_uplny(*v),
        d < DNY,
        k < SLOTU,
    ensures
        final(out)@ == old(out)@ + radky_xml(*v, k as int, bunka(*v, Pohled::Trida(*t), d as int, k as int)),
{
    let p = Pohled::Trida(t.clone());
    let b = lekce_v_bunce(v, &p, d, k);
    let ghost o = out@;
    let mut q: usize = 0;
    while q < b.len()
        invariant
            q <= b@.len(),
            vysledek_uplny(*v),
            k < SLOTU,
            forall|j: int| 0 <= j < b@.len() ==> (#[trigger] b@[j]) < v.lekce@.len(),
            out@ == o + radky_xml(*v, k as int, b@.take(q as int)),
        decreases b@.len() - q,
    {
        proof {
            assert(b@.take(q + 1).drop_last() =~= b@.take(q as int));
        }
        radek_xml_exec(out, v, k, b[q]);
        q = q + 1;
    }
    proof {
        assert(b@.take(b@.len() as int) =~= b@);
    }
}

fn xml_den_exec(out: &mut String, v: &Vysledek, t: &String, d: usize)
    requires
        vysledek_uplny(*v),
        d < DNY,
    ensures
        final(out)@ == old(out)@ + xml_dne(*v, *t, d as int),
{
    let ghost o = out@;
    let mut h = "    <den index=\"".to_owned();
    pripoj(&mut h, crate::text::cislo(d as u64).as_str());
    pripoj(&mut h, "\" nazev=\"");
    pripoj(&mut h, crate::data::nazev_dne(d));
    pripoj(&mut h, "\">\n");
    pripoj(out, h.as_str());
    let ghost o2 = out@;
    let mut k: usize = 0;
    while k < SLOTU
        invariant
            k <= SLOTU,
            vysledek_uplny(*v),
            d < DNY,
            out@ == o2 + xml_hodin(*v, *t, d as int, k as int),
        decreases SLOTU - k,
    {
        xml_bunky(out, v, t, d, k);
        k = k + 1;
    }
    pripoj(out, "    </den>\n");
    proof {
        assert(out@ =~= o + xml_dne(*v, *t, d as int));
    }
}

fn xml_trida_exec(out: &mut String, v: &Vysledek, t: &Trida)
    requires
        vysledek_uplny(*v),
    ensures
        final(out)@ == old(out)@ + xml_tridy(*v, *t),
{
    let ghost o = out@;
    let mut h = "  <trida id=\"".to_owned();
    pripoj(&mut h, esc(t.id.as_str()).as_str());
    pripoj(&mut h, "\" nazev=\"");
    pripoj(&mut h, esc(t.nazev.as_str()).as_str());
    pripoj(&mut h, "\">\n");
    pripoj(out, h.as_str());
    let ghost o2 = out@;
    let mut d: usize = 0;
    while d < DNY
        invariant
            d <= DNY,
            vysledek_uplny(*v),
            out@ == o2 + xml_dni(*v, t.id, d as int),
        decreases DNY - d,
    {
        xml_den_exec(out, v, &t.id, d);
        d = d + 1;
    }
    pripoj(out, "  </trida>\n");
    proof {
        assert(out@ =~= o + xml_tridy(*v, *t));
    }
}

/// XML rozvrhu: třídy, dny, hodiny a lekce v buňkách (v pořadí `lekce_v_bunce`).
pub fn xml(skola: &Skola, v: &Vysledek) -> (r: String)
    requires
        vysledek_uplny(*v),
    ensures
        r@ == xml_spec(*skola, *v),
{
    let mut s = "<?xml version=\"1.0\" encoding=\"UTF-8\"?>\n<rozvrh rok=\"".to_owned();
    pripoj(&mut s, esc(v.rok.as_str()).as_str());
    pripoj(&mut s, "\">\n");
    let ghost o = s@;
    let mut i: usize = 0;
    while i < skola.tridy.len()
        invariant
            i <= skola.tridy@.len(),
            vysledek_uplny(*v),
            s@ == o + xml_trid(*v, skola.tridy@.take(i as int)),
        decreases skola.tridy@.len() - i,
    {
        proof {
            assert(skola.tridy@.take(i + 1).drop_last() =~= skola.tridy@.take(i as int));
        }
        xml_trida_exec(&mut s, v, &skola.tridy[i]);
        i = i + 1;
    }
    proof {
        assert(skola.tridy@.take(skola.tridy@.len() as int) =~= skola.tridy@);
    }
    pripoj(&mut s, "</rozvrh>\n");
    proof {
        assert(s@ =~= xml_spec(*skola, *v));
    }
    s
}

/// Značka týdne v buňce HTML.
pub open spec fn tyden_html(t: Tyden) -> Seq<char> {
    match t {
        Tyden::Oba => Seq::empty(),
        _ => "<span class=\"lt\">"@ + crate::solver::prefix_spec(t) + "</span>"@,
    }
}

/// Skupina lekce v buňce HTML (s mezerou před).
pub open spec fn skupina_html(l: LekceInfo) -> Seq<char> {
    if l.skupina@.len() == 0 {
        Seq::empty()
    } else {
        " "@ + esc_spec(l.skupina@)
    }
}

/// Místnost v buňce HTML („?“, není-li přidělena).
pub open spec fn mistnost_html(v: Vysledek, i: int) -> Seq<char> {
    match v.mistnost@[i] {
        Some(m) => m@,
        None => "?"@,
    }
}

/// Druhý řádek lekce v buňce: u třídy a žáka učitel a místnost, u učitele třídy
/// a místnost, u místnosti třídy a učitel.
pub open spec fn druhy_radek(skola: Skola, v: Vysledek, p: Pohled, i: int) -> Seq<char> {
    let l = v.lekce@[i];
    match p {
        Pohled::Trida(_) => esc_spec(l.ucitel@) + " · "@ + esc_spec(mistnost_html(v, i)),
        Pohled::Zak(_) => esc_spec(l.ucitel@) + " · "@ + esc_spec(mistnost_html(v, i)),
        Pohled::Ucitel(_) => esc_spec(tridy_kratce_spec(skola, l.tridy@)) + " · "@ + esc_spec(mistnost_html(v, i)),
        Pohled::Mistnost(_) => esc_spec(tridy_kratce_spec(skola, l.tridy@)) + " · "@ + esc_spec(l.ucitel@),
    }
}

/// HTML jedné lekce v buňce.
pub open spec fn lekce_html(skola: Skola, v: Vysledek, p: Pohled, i: int) -> Seq<char> {
    let l = v.lekce@[i];
    "<div class=\"l\">"@ + tyden_html(l.tyden) + "<span class=\"p\">"@ + esc_spec(l.predmet@) + "</span>"@ + skupina_html(l)
        + "<br><span class=\"m\">"@ + druhy_radek(skola, v, p, i) + "</span></div>"@
}

/// HTML lekcí posloupnosti.
pub open spec fn lekce_html_vse(skola: Skola, v: Vysledek, p: Pohled, s: Seq<usize>) -> Seq<char>
    decreases s.len(),
{
    if s.len() == 0 {
        Seq::empty()
    } else {
        lekce_html_vse(skola, v, p, s.drop_last()) + lekce_html(skola, v, p, s.last() as int)
    }
}

/// HTML buňky (den, hodina).
pub open spec fn bunka_html_spec(skola: Skola, v: Vysledek, p: Pohled, d: int, k: int) -> Seq<char> {
    lekce_html_vse(skola, v, p, bunka(v, p, d, k))
}

fn lekce_html_exec(skola: &Skola, v: &Vysledek, p: &Pohled, i: usize) -> (r: String)
    requires
        vysledek_uplny(*v),
        i < v.lekce@.len(),
    ensures
        r@ == lekce_html(*skola, *v, *p, i as int),
{
    let l = &v.lekce[i];
    let mut r = "<div class=\"l\">".to_owned();
    match l.tyden {
        Tyden::Oba => {},
        _ => {
            let mut t = "<span class=\"lt\">".to_owned();
            pripoj(&mut t, l.tyden.prefix());
            pripoj(&mut t, "</span>");
            proof {
                assert(t@ == tyden_html(l.tyden));
            }
            pripoj(&mut r, t.as_str());
        },
    }
    proof {
        assert(r@ =~= "<div class=\"l\">"@ + tyden_html(l.tyden));
    }
    pripoj(&mut r, "<span class=\"p\">");
    pripoj(&mut r, esc(l.predmet.as_str()).as_str());
    pripoj(&mut r, "</span>");
    let ghost r1 = r@;
    if l.skupina.as_str().is_empty() {
        proof {
            assert(r@ =~= r1 + skupina_html(*l));
        }
    } else {
        let mut sk = " ".to_owned();
        pripoj(&mut sk, esc(l.skupina.as_str()).as_str());
        pripoj(&mut r, sk.as_str());
    }
    pripoj(&mut r, "<br><span class=\"m\">");
    let mist = match &v.mistnost[i] {
        Some(m) => m.clone(),
        None => "?".to_owned(),
    };
    let druhy = match p {
        Pohled::Trida(_) | Pohled::Zak(_) => {
            let mut x = esc(l.ucitel.as_str());
            pripoj(&mut x, " · ");
            pripoj(&mut x, esc(mist.as_str()).as_str());
            x
        },
        Pohled::Ucitel(_) => {
            let mut x = esc(tridy_kratce(skola, &l.tridy).as_str());
            pripoj(&mut x, " · ");
            pripoj(&mut x, esc(mist.as_str()).as_str());
            x
        },
        Pohled::Mistnost(_) => {
            let mut x = esc(tridy_kratce(skola, &l.tridy).as_str());
            pripoj(&mut x, " · ");
            pripoj(&mut x, esc(l.ucitel.as_str()).as_str());
            x
        },
    };
    proof {
        assert(druhy@ == druhy_radek(*skola, *v, *p, i as int));
    }
    pripoj(&mut r, druhy.as_str());
    pripoj(&mut r, "</span></div>");
    r
}

fn bunka_html(skola: &Skola, v: &Vysledek, p: &Pohled, d: usize, k: usize) -> (r: String)
    requires
        vysledek_uplny(*v),
        d < DNY,
        k < SLOTU,
    ensures
        r@ == bunka_html_spec(*skola, *v, *p, d as int, k as int),
{
    let b = lekce_v_bunce(v, p, d, k);
    let mut s = String::new();
    let mut q: usize = 0;
    while q < b.len()
        invariant
            q <= b@.len(),
            vysledek_uplny(*v),
            forall|j: int| 0 <= j < b@.len() ==> (#[trigger] b@[j]) < v.lekce@.len(),
            s@ == lekce_html_vse(*skola, *v, *p, b@.take(q as int)),
        decreases b@.len() - q,
    {
        proof {
            assert(b@.take(q + 1).drop_last() =~= b@.take(q as int));
        }
        let x = lekce_html_exec(skola, v, p, b[q]);
        pripoj(&mut s, x.as_str());
        q = q + 1;
    }
    proof {
        assert(b@.take(b@.len() as int) =~= b@);
    }
    s
}

/// Záhlaví sloupce hodiny `k`: číslo, začátek a konec.
pub open spec fn zahlavi_hodiny(k: int) -> Seq<char> {
    "<th>"@ + crate::text::desitkove(k as nat) + ".<br>"@ + crate::data::cas_zacatku_spec(k) + "–"@
        + crate::data::cas_konce_spec(k) + "</th>"@
}

/// Záhlaví prvních `n` hodin.
pub open spec fn zahlavi_hodin(n: int) -> Seq<char>
    decreases n,
{
    if n <= 0 {
        Seq::empty()
    } else {
        zahlavi_hodin(n - 1) + zahlavi_hodiny(n - 1)
    }
}

/// Buňky prvních `n` hodin dne `d`.
pub open spec fn bunky_dne(skola: Skola, v: Vysledek, p: Pohled, d: int, n: int) -> Seq<char>
    decreases n,
{
    if n <= 0 {
        Seq::empty()
    } else {
        bunky_dne(skola, v, p, d, n - 1) + "<td>"@ + bunka_html_spec(skola, v, p, d, n - 1) + "</td>"@
    }
}

/// Řádek tabulky dne `d`.
pub open spec fn radek_tabulky(skola: Skola, v: Vysledek, p: Pohled, d: int) -> Seq<char> {
    "<tr><th class=\"den\">"@ + crate::data::nazev_dne_spec(d) + "</th>"@ + bunky_dne(skola, v, p, d, SLOTU as int)
        + "</tr>"@
}

/// Řádky prvních `n` dní.
pub open spec fn radky_tabulky(skola: Skola, v: Vysledek, p: Pohled, n: int) -> Seq<char>
    decreases n,
{
    if n <= 0 {
        Seq::empty()
    } else {
        radky_tabulky(skola, v, p, n - 1) + radek_tabulky(skola, v, p, n - 1)
    }
}

/// Tabulka rozvrhu pohledu: dny × hodiny.
pub open spec fn tabulka_spec(skola: Skola, v: Vysledek, p: Pohled) -> Seq<char> {
    "<table><tr><th class=\"den\"></th>"@ + zahlavi_hodin(SLOTU as int) + "</tr>"@ + radky_tabulky(skola, v, p, DNY as int)
        + "</table>"@
}

fn tabulka_html(skola: &Skola, v: &Vysledek, p: &Pohled) -> (r: String)
    requires
        vysledek_uplny(*v),
    ensures
        r@ == tabulka_spec(*skola, *v, *p),
{
    let mut s = "<table><tr><th class=\"den\"></th>".to_owned();
    let ghost s0 = s@;
    let mut z = String::new();
    let mut k: usize = 0;
    while k < SLOTU
        invariant
            k <= SLOTU,
            z@ == zahlavi_hodin(k as int),
        decreases SLOTU - k,
    {
        let mut h = "<th>".to_owned();
        pripoj(&mut h, crate::text::cislo(k as u64).as_str());
        pripoj(&mut h, ".<br>");
        pripoj(&mut h, crate::data::cas_zacatku(k));
        pripoj(&mut h, "–");
        pripoj(&mut h, crate::data::cas_konce(k));
        pripoj(&mut h, "</th>");
        pripoj(&mut z, h.as_str());
        k = k + 1;
    }
    pripoj(&mut s, z.as_str());
    pripoj(&mut s, "</tr>");
    let mut radky = String::new();
    let mut d: usize = 0;
    while d < DNY
        invariant
            d <= DNY,
            vysledek_uplny(*v),
            radky@ == radky_tabulky(*skola, *v, *p, d as int),
        decreases DNY - d,
    {
        let mut r = "<tr><th class=\"den\">".to_owned();
        pripoj(&mut r, crate::data::nazev_dne(d));
        pripoj(&mut r, "</th>");
        let mut b = String::new();
        let mut k: usize = 0;
        while k < SLOTU
            invariant
                k <= SLOTU,
                d < DNY,
                vysledek_uplny(*v),
                b@ == bunky_dne(*skola, *v, *p, d as int, k as int),
            decreases SLOTU - k,
        {
            pripoj(&mut b, "<td>");
            pripoj(&mut b, bunka_html(skola, v, p, d, k).as_str());
            pripoj(&mut b, "</td>");
            k = k + 1;
        }
        pripoj(&mut r, b.as_str());
        pripoj(&mut r, "</tr>");
        pripoj(&mut radky, r.as_str());
        d = d + 1;
    }
    pripoj(&mut s, radky.as_str());
    pripoj(&mut s, "</table>");
    s
}

/// Styl tiskových stránek (A4 na šířku).
pub open spec fn css_spec() -> Seq<char> {
    "\n@page { size: A4 landscape; margin: 8mm; }\nbody { font-family: Arial, Helvetica, sans-serif; font-size: 10px; color: #111; }\n.strana { page-break-after: always; break-after: page; }\n.strana:last-child { page-break-after: auto; }\nh2 { font-size: 15px; margin: 0 0 6px 0; }\ntable { border-collapse: collapse; width: 100%; table-layout: fixed; }\nth, td { border: 1px solid #666; padding: 2px; vertical-align: top; }\ntd { height: 62px; }\nth { background: #e8e8e8; font-weight: bold; }\nth.den { width: 28px; }\n.l { margin-bottom: 3px; line-height: 1.2; }\n.p { font-weight: bold; font-size: 11px; }\n.m { color: #444; }\n.lt { color: #0a5; font-weight: bold; }\n.pozn { margin-top: 6px; color: #555; }\n"@
}

fn css() -> (r: &'static str)
    ensures
        r@ == css_spec(),
{
    "\n@page { size: A4 landscape; margin: 8mm; }\nbody { font-family: Arial, Helvetica, sans-serif; font-size: 10px; color: #111; }\n.strana { page-break-after: always; break-after: page; }\n.strana:last-child { page-break-after: auto; }\nh2 { font-size: 15px; margin: 0 0 6px 0; }\ntable { border-collapse: collapse; width: 100%; table-layout: fixed; }\nth, td { border: 1px solid #666; padding: 2px; vertical-align: top; }\ntd { height: 62px; }\nth { background: #e8e8e8; font-weight: bold; }\nth.den { width: 28px; }\n.l { margin-bottom: 3px; line-height: 1.2; }\n.p { font-weight: bold; font-size: 11px; }\n.m { color: #444; }\n.lt { color: #0a5; font-weight: bold; }\n.pozn { margin-top: 6px; color: #555; }\n"
}

/// Stránka tisku: nadpis, tabulka pohledu, poznámka s rokem.
pub open spec fn stranka_spec(skola: Skola, v: Vysledek, nadpis: Seq<char>, p: Pohled) -> Seq<char> {
    "<div class=\"strana\"><h2>"@ + esc_spec(nadpis) + "</h2>"@ + tabulka_spec(skola, v, p)
        + "<div class=\"pozn\">L· = lichý týden, S· = sudý týden · Gymnázium Františka Palackého Neratovice · "@ + esc_spec(v.rok@)
        + "</div></div>"@
}

/// Stránky v pořadí.
pub open spec fn stranky_spec(skola: Skola, v: Vysledek, st: Seq<(Seq<char>, Pohled)>) -> Seq<char>
    decreases st.len(),
{
    if st.len() == 0 {
        Seq::empty()
    } else {
        stranky_spec(skola, v, st.drop_last()) + stranka_spec(skola, v, st.last().0, st.last().1)
    }
}

/// Stránky jako dvojice (nadpis, pohled).
pub open spec fn stranky_v(st: Seq<(String, Pohled)>) -> Seq<(Seq<char>, Pohled)> {
    st.map_values(|x: (String, Pohled)| (x.0@, x.1))
}

/// Dokument HTML ze stránek.
pub open spec fn html_spec(skola: Skola, v: Vysledek, titulek: Seq<char>, st: Seq<(Seq<char>, Pohled)>) -> Seq<char> {
    "<!doctype html><html lang=\"cs\"><head><meta charset=\"utf-8\"><title>"@ + esc_spec(titulek) + "</title><style>"@ + css_spec()
        + "</style></head><body>"@ + stranky_spec(skola, v, st) + "</body></html>"@
}

/// Obecný tisk: jedna stránka A4 na šířku pro každý pohled.
pub fn html_stranky(skola: &Skola, v: &Vysledek, titulek: &str, stranky: &Vec<(String, Pohled)>) -> (r: String)
    requires
        vysledek_uplny(*v),
    ensures
        r@ == html_spec(*skola, *v, titulek@, stranky_v(stranky@)),
{
    let mut s = "<!doctype html><html lang=\"cs\"><head><meta charset=\"utf-8\"><title>".to_owned();
    pripoj(&mut s, esc(titulek).as_str());
    pripoj(&mut s, "</title><style>");
    pripoj(&mut s, css());
    pripoj(&mut s, "</style></head><body>");
    let mut obsah = String::new();
    let mut i: usize = 0;
    while i < stranky.len()
        invariant
            i <= stranky@.len(),
            vysledek_uplny(*v),
            obsah@ == stranky_spec(*skola, *v, stranky_v(stranky@.take(i as int))),
        decreases stranky@.len() - i,
    {
        proof {
            assert(stranky_v(stranky@.take(i + 1)).drop_last() =~= stranky_v(stranky@.take(i as int)));
        }
        let mut x = "<div class=\"strana\"><h2>".to_owned();
        pripoj(&mut x, esc(stranky[i].0.as_str()).as_str());
        pripoj(&mut x, "</h2>");
        pripoj(&mut x, tabulka_html(skola, v, &stranky[i].1).as_str());
        pripoj(&mut x, "<div class=\"pozn\">L· = lichý týden, S· = sudý týden · Gymnázium Františka Palackého Neratovice · ");
        pripoj(&mut x, esc(v.rok.as_str()).as_str());
        pripoj(&mut x, "</div></div>");
        pripoj(&mut obsah, x.as_str());
        i = i + 1;
    }
    proof {
        assert(stranky@.take(stranky@.len() as int) =~= stranky@);
    }
    pripoj(&mut s, obsah.as_str());
    pripoj(&mut s, "</body></html>");
    s
}

/// Stránky tříd: „Třída … – rozvrh …“ pro každou třídu.
pub open spec fn stranky_trid(skola: Skola, v: Vysledek) -> Seq<(Seq<char>, Pohled)> {
    skola.tridy@.map_values(|t: Trida| ("Třída "@ + t.nazev@ + " – rozvrh "@ + v.rok@, Pohled::Trida(t.id)))
}

/// Rozvrhy všech tříd (stránka na třídu).
pub fn html_tridy(skola: &Skola, v: &Vysledek) -> (r: String)
    requires
        vysledek_uplny(*v),
    ensures
        r@ == html_spec(*skola, *v, "Rozvrh tříd "@ + v.rok@, stranky_trid(*skola, *v)),
{
    let mut stranky: Vec<(String, Pohled)> = Vec::new();
    let mut i: usize = 0;
    while i < skola.tridy.len()
        invariant
            i <= skola.tridy@.len(),
            stranky_v(stranky@) == stranky_trid(*skola, *v).take(i as int),
        decreases skola.tridy@.len() - i,
    {
        let t = &skola.tridy[i];
        let mut n = "Třída ".to_owned();
        pripoj(&mut n, t.nazev.as_str());
        pripoj(&mut n, " – rozvrh ");
        pripoj(&mut n, v.rok.as_str());
        let ghost s0 = stranky@;
        let x = (n, Pohled::Trida(t.id.clone()));
        stranky.push(x);
        proof {
            assert(stranky_v(stranky@) =~= stranky_v(s0).push((x.0@, x.1)));
            assert(stranky_trid(*skola, *v).take(i + 1) =~= stranky_trid(*skola, *v).take(i as int).push((x.0@, x.1)));
        }
        i = i + 1;
    }
    proof {
        assert(stranky_trid(*skola, *v).take(skola.tridy@.len() as int) =~= stranky_trid(*skola, *v));
    }
    let mut titulek = "Rozvrh tříd ".to_owned();
    pripoj(&mut titulek, v.rok.as_str());
    html_stranky(skola, v, titulek.as_str(), &stranky)
}

/// Učitel učí některou lekci výsledku.
pub open spec fn uci(v: Vysledek, u: crate::data::Ucitel) -> bool {
    exists|i: int| 0 <= i < v.lekce@.len() && (#[trigger] v.lekce@[i]).ucitel@ == u.id@
}

/// Učitelé, kteří učí, v pořadí sboru.
pub open spec fn ucitele_s_vyukou(v: Vysledek, u: Seq<crate::data::Ucitel>) -> Seq<crate::data::Ucitel>
    decreases u.len(),
{
    if u.len() == 0 {
        Seq::empty()
    } else if uci(v, u.last()) {
        ucitele_s_vyukou(v, u.drop_last()).push(u.last())
    } else {
        ucitele_s_vyukou(v, u.drop_last())
    }
}

/// Stránky učitelů: „zkratka – jméno – rozvrh …“ pro každého učícího učitele.
pub open spec fn stranky_ucitelu(skola: Skola, v: Vysledek) -> Seq<(Seq<char>, Pohled)> {
    ucitele_s_vyukou(v, skola.ucitele@).map_values(
        |u: crate::data::Ucitel| (u.id@ + " – "@ + u.jmeno@ + " – rozvrh "@ + v.rok@, Pohled::Ucitel(u.id)),
    )
}

fn uci_exec(v: &Vysledek, id: &str) -> (r: bool)
    ensures
        r == exists|i: int| 0 <= i < v.lekce@.len() && (#[trigger] v.lekce@[i]).ucitel@ == id@,
{
    let mut i: usize = 0;
    while i < v.lekce.len()
        invariant
            i <= v.lekce@.len(),
            forall|j: int| 0 <= j < i ==> (#[trigger] v.lekce@[j]).ucitel@ != id@,
        decreases v.lekce@.len() - i,
    {
        if crate::text::rovno(v.lekce[i].ucitel.as_str(), id) {
            return true;
        }
        i = i + 1;
    }
    false
}

/// Rozvrhy učitelů (stránka na učitele, který učí).
pub fn html_ucitele(skola: &Skola, v: &Vysledek) -> (r: String)
    requires
        vysledek_uplny(*v),
    ensures
        r@ == html_spec(*skola, *v, "Rozvrh učitelů "@ + v.rok@, stranky_ucitelu(*skola, *v)),
{
    let mut stranky: Vec<(String, Pohled)> = Vec::new();
    let mut i: usize = 0;
    while i < skola.ucitele.len()
        invariant
            i <= skola.ucitele@.len(),
            stranky_v(stranky@) == ucitele_s_vyukou(*v, skola.ucitele@.take(i as int)).map_values(
                |u: crate::data::Ucitel| (u.id@ + " – "@ + u.jmeno@ + " – rozvrh "@ + v.rok@, Pohled::Ucitel(u.id)),
            ),
        decreases skola.ucitele@.len() - i,
    {
        let u = &skola.ucitele[i];
        proof {
            assert(skola.ucitele@.take(i + 1).drop_last() =~= skola.ucitele@.take(i as int));
            assert(skola.ucitele@.take(i + 1).last() == *u);
        }
        if uci_exec(v, u.id.as_str()) {
            let mut n = u.id.clone();
            pripoj(&mut n, " – ");
            pripoj(&mut n, u.jmeno.as_str());
            pripoj(&mut n, " – rozvrh ");
            pripoj(&mut n, v.rok.as_str());
            let ghost s0 = stranky@;
            let x = (n, Pohled::Ucitel(u.id.clone()));
            stranky.push(x);
            proof {
                assert(stranky_v(stranky@) =~= stranky_v(s0).push((x.0@, x.1)));
            }
        }
        i = i + 1;
    }
    proof {
        assert(skola.ucitele@.take(skola.ucitele@.len() as int) =~= skola.ucitele@);
    }
    let mut titulek = "Rozvrh učitelů ".to_owned();
    pripoj(&mut titulek, v.rok.as_str());
    html_stranky(skola, v, titulek.as_str(), &stranky)
}

/// Žák `a` jde v tisku před žákem `b`: podle pořadí třídy v číselníku (neznámé na
/// konec), pak podle jména, při shodě v pořadí seznamu.
pub open spec fn drive_zak(skola: Skola, st: Seq<Student>, a: int, b: int) -> bool {
    let pa = crate::profily::klic_tridy(skola.tridy@, st[a].trida@);
    let pb = crate::profily::klic_tridy(skola.tridy@, st[b].trida@);
    ||| pa < pb
    ||| pa == pb && lex_mensi(st[a].jmeno@, st[b].jmeno@)
    ||| pa == pb && st[a].jmeno@ == st[b].jmeno@ && a < b
}

/// `s` jsou indexy žáků v rozvrhu seřazené podle `drive_zak`.
pub open spec fn poradi_zaku(skola: Skola, st: Seq<Student>, s: Seq<usize>) -> bool {
    &&& forall|i: int| 0 <= i < st.len() ==> (s.contains(i as usize) <==> (#[trigger] st[i]).spec_v_rozvrhu())
    &&& forall|k: int| 0 <= k < s.len() ==> (#[trigger] s[k]) < st.len()
    &&& forall|a: int, b: int| 0 <= a < b < s.len() ==> drive_zak(skola, st, #[trigger] s[a] as int, #[trigger] s[b] as int)
}

/// Žáci v pořadí tisku (jednoznačné, viz `poradi_zaku`).
pub open spec fn zaci_tisku(skola: Skola, st: Seq<Student>) -> Seq<usize> {
    choose|s: Seq<usize>| poradi_zaku(skola, st, s)
}

/// Název skupiny angličtiny.
pub open spec fn skupina_nazev(g: crate::data::SkupinaAj) -> Seq<char> {
    match g {
        crate::data::SkupinaAj::A => "AJa"@,
        crate::data::SkupinaAj::B => "AJb"@,
    }
}

/// Stránky žáků: „jméno – třída (skupina) – rozvrh …“ v pořadí tisku.
pub open spec fn stranky_zaku(skola: Skola, st: Seq<Student>, v: Vysledek) -> Seq<(Seq<char>, Pohled)> {
    zaci_tisku(skola, st).map_values(
        |i: usize|
            (st[i as int].jmeno@ + " – "@ + nazev_tridy_spec(skola, st[i as int].trida@) + " ("@ + skupina_nazev(
                st[i as int].skupina_aj,
            ) + ") – rozvrh "@ + v.rok@, Pohled::Zak(st[i as int].id)),
    )
}

proof fn lemma_drive_zak_asym(skola: Skola, st: Seq<Student>, a: int, b: int)
    ensures
        !(drive_zak(skola, st, a, b) && drive_zak(skola, st, b, a)),
{
    lemma_lex_asymetricky(st[a].jmeno@, st[b].jmeno@);
    lemma_lex_ireflexivni(st[a].jmeno@);
}

proof fn lemma_drive_zak_tranz(skola: Skola, st: Seq<Student>, a: int, b: int, c: int)
    requires
        drive_zak(skola, st, a, b),
        drive_zak(skola, st, b, c),
    ensures
        drive_zak(skola, st, a, c),
{
    if lex_mensi(st[a].jmeno@, st[b].jmeno@) && lex_mensi(st[b].jmeno@, st[c].jmeno@) {
        lemma_lex_tranzitivni(st[a].jmeno@, st[b].jmeno@, st[c].jmeno@);
    }
}

fn drive_zak_exec(skola: &Skola, st: &Vec<Student>, a: usize, b: usize) -> (r: bool)
    requires
        a < st@.len(),
        b < st@.len(),
    ensures
        r == drive_zak(*skola, st@, a as int, b as int),
{
    let pa = crate::profily::klic_exec(&skola.tridy, st[a].trida.as_str());
    let pb = crate::profily::klic_exec(&skola.tridy, st[b].trida.as_str());
    if pa != pb {
        return pa < pb;
    }
    let c = porovnej(st[a].jmeno.as_str(), st[b].jmeno.as_str());
    c < 0 || (c == 0 && a < b)
}

/// Osobní rozvrhy žáků v rozvrhu (stránka na žáka, po třídách a jménech).
pub fn html_zaci(skola: &Skola, rok: &crate::data::SkolniRok, v: &Vysledek) -> (r: String)
    requires
        vysledek_uplny(*v),
    ensures
        r@ == html_spec(*skola, *v, "Osobní rozvrhy žáků "@ + v.rok@, stranky_zaku(*skola, rok.studenti@, *v)),
{
    let ghost st = rok.studenti@;
    let mut zbyva: Vec<usize> = Vec::new();
    let mut i: usize = 0;
    while i < rok.studenti.len()
        invariant
            i <= st.len(),
            st == rok.studenti@,
            forall|j: int| 0 <= j < i ==> (zbyva@.contains(j as usize) <==> (#[trigger] st[j]).spec_v_rozvrhu()),
            forall|k: int| 0 <= k < zbyva@.len() ==> (#[trigger] zbyva@[k]) < i,
            forall|a: int, b: int| 0 <= a < b < zbyva@.len() ==> (#[trigger] zbyva@[a]) < (#[trigger] zbyva@[b]),
        decreases st.len() - i,
    {
        let ghost z0 = zbyva@;
        if rok.studenti[i].v_rozvrhu() {
            zbyva.push(i);
        }
        proof {
            assert forall|j: int| 0 <= j < i + 1 implies (zbyva@.contains(j as usize) <==> (#[trigger] st[j]).spec_v_rozvrhu()) by {
                crate::hledani::lemma_contains_push(z0, i, j as usize);
                if z0.contains(i) {
                    let k = choose|k: int| 0 <= k < z0.len() && z0[k] == i;
                }
            }
        }
        i = i + 1;
    }
    let ghost mnozina = zbyva@;
    let mut poradi: Vec<usize> = Vec::new();
    while zbyva.len() > 0
        invariant
            st == rok.studenti@,
            forall|x: usize| (poradi@.contains(x) || zbyva@.contains(x)) <==> mnozina.contains(x),
            forall|k: int| 0 <= k < zbyva@.len() ==> (#[trigger] zbyva@[k]) < st.len(),
            forall|k: int| 0 <= k < poradi@.len() ==> (#[trigger] poradi@[k]) < st.len(),
            forall|a: int, b: int| 0 <= a < b < zbyva@.len() ==> (#[trigger] zbyva@[a]) < (#[trigger] zbyva@[b]),
            forall|a: int, b: int|
                0 <= a < b < poradi@.len() ==> drive_zak(*skola, st, #[trigger] poradi@[a] as int, #[trigger] poradi@[b] as int),
            forall|a: int, b: int|
                0 <= a < poradi@.len() && 0 <= b < zbyva@.len() ==> drive_zak(*skola, st, #[trigger] poradi@[a] as int, #[trigger] zbyva@[b] as int),
        decreases zbyva@.len(),
    {
        let mut nej: usize = 0;
        let mut k: usize = 1;
        while k < zbyva.len()
            invariant
                st == rok.studenti@,
                1 <= k <= zbyva@.len(),
                nej < k,
                forall|j: int| 0 <= j < zbyva@.len() ==> (#[trigger] zbyva@[j]) < st.len(),
                forall|a: int, b: int| 0 <= a < b < zbyva@.len() ==> (#[trigger] zbyva@[a]) < (#[trigger] zbyva@[b]),
                forall|j: int| 0 <= j < k && j != nej ==> drive_zak(*skola, st, zbyva@[nej as int] as int, #[trigger] zbyva@[j] as int),
            decreases zbyva@.len() - k,
        {
            if drive_zak_exec(skola, &rok.studenti, zbyva[k], zbyva[nej]) {
                proof {
                    assert forall|j: int| 0 <= j < k + 1 && j != k implies drive_zak(*skola, st, zbyva@[k as int] as int, #[trigger] zbyva@[j] as int) by {
                        if j != nej {
                            lemma_drive_zak_tranz(*skola, st, zbyva@[k as int] as int, zbyva@[nej as int] as int, zbyva@[j] as int);
                        }
                    }
                }
                nej = k;
            } else {
                proof {
                    assert(zbyva@[nej as int] < zbyva@[k as int]);
                    lemma_lex_uplny(st[zbyva@[k as int] as int].jmeno@, st[zbyva@[nej as int] as int].jmeno@);
                }
            }
            k = k + 1;
        }
        let ghost z0 = zbyva@;
        let ghost r0 = poradi@;
        let m = zbyva.remove(nej);
        poradi.push(m);
        proof {
            assert(poradi@ == r0.push(m));
            assert forall|j: int| 0 <= j < zbyva@.len() implies #[trigger] zbyva@[j] == (if j < nej {
                z0[j]
            } else {
                z0[j + 1]
            }) by {}
            assert forall|a: int, b: int| 0 <= a < b < poradi@.len() implies drive_zak(*skola, st, #[trigger] poradi@[a] as int, #[trigger] poradi@[b] as int) by {
                if b < r0.len() {
                    assert(drive_zak(*skola, st, r0[a] as int, r0[b] as int));
                } else {
                    assert(drive_zak(*skola, st, r0[a] as int, z0[nej as int] as int));
                }
            }
            assert forall|a: int, b: int|
                0 <= a < poradi@.len() && 0 <= b < zbyva@.len() implies drive_zak(*skola, st, #[trigger] poradi@[a] as int, #[trigger] zbyva@[b] as int) by {
                let bb = if b < nej { b } else { b + 1 };
                if a < r0.len() {
                    assert(drive_zak(*skola, st, r0[a] as int, z0[bb] as int));
                } else {
                    assert(drive_zak(*skola, st, z0[nej as int] as int, z0[bb] as int));
                }
            }
            assert forall|a: int, b: int| 0 <= a < b < zbyva@.len() implies (#[trigger] zbyva@[a]) < (#[trigger] zbyva@[b]) by {
                let aa = if a < nej { a } else { a + 1 };
                let bb = if b < nej { b } else { b + 1 };
                assert(z0[aa] < z0[bb]);
            }
            assert forall|x: usize| (poradi@.contains(x) || zbyva@.contains(x)) <==> mnozina.contains(x) by {
                crate::hledani::lemma_contains_push(r0, m, x);
                if zbyva@.contains(x) {
                    let j = choose|j: int| 0 <= j < zbyva@.len() && zbyva@[j] == x;
                    let jj = if j < nej { j } else { j + 1 };
                    assert(z0[jj] == x);
                }
                if z0.contains(x) && x != m {
                    let j = choose|j: int| 0 <= j < z0.len() && z0[j] == x;
                    if j < nej {
                        assert(zbyva@[j] == x);
                    } else {
                        assert(j != nej);
                        assert(zbyva@[j - 1] == x);
                    }
                }
            }
        }
    }
    proof {
        assert forall|j: int| 0 <= j < st.len() implies (poradi@.contains(j as usize) <==> (#[trigger] st[j]).spec_v_rozvrhu()) by {
            if mnozina.contains(j as usize) {
                if zbyva@.contains(j as usize) {
                    let k = choose|k: int| 0 <= k < zbyva@.len() && zbyva@[k] == j as usize;
                }
            }
        }
        let b = zaci_tisku(*skola, st);
        assert(poradi_zaku(*skola, st, poradi@));
        assert(poradi_zaku(*skola, st, b));
        let lt = |x: usize, y: usize| drive_zak(*skola, st, x as int, y as int);
        assert forall|x: usize, y: usize| !(#[trigger] lt(x, y) && #[trigger] lt(y, x)) by {
            lemma_drive_zak_asym(*skola, st, x as int, y as int);
        }
        assert forall|x: usize| poradi@.contains(x) <==> b.contains(x) by {
            if poradi@.contains(x) {
                let k = choose|k: int| 0 <= k < poradi@.len() && poradi@[k] == x;
                assert(poradi@[k] < st.len());
                assert(st[x as int].spec_v_rozvrhu());
            }
            if b.contains(x) {
                let k = choose|k: int| 0 <= k < b.len() && b[k] == x;
                assert(b[k] < st.len());
                assert(st[x as int].spec_v_rozvrhu());
            }
        }
        lemma_serazene_stejne(lt, poradi@, b);
    }
    let mut stranky: Vec<(String, Pohled)> = Vec::new();
    let mut q: usize = 0;
    while q < poradi.len()
        invariant
            q <= poradi@.len(),
            st == rok.studenti@,
            poradi@ == zaci_tisku(*skola, st),
            forall|k: int| 0 <= k < poradi@.len() ==> (#[trigger] poradi@[k]) < st.len(),
            stranky_v(stranky@) == stranky_zaku(*skola, st, *v).take(q as int),
        decreases poradi@.len() - q,
    {
        let z = &rok.studenti[poradi[q]];
        let mut n = z.jmeno.clone();
        pripoj(&mut n, " – ");
        pripoj(&mut n, skola.nazev_tridy(z.trida.as_str()).as_str());
        pripoj(&mut n, " (");
        let g = z.skupina_aj.nazev();
        proof {
            assert(skupina_nazev(z.skupina_aj) == g@) by {
                match z.skupina_aj {
                    crate::data::SkupinaAj::A => {},
                    crate::data::SkupinaAj::B => {},
                }
            }
        }
        pripoj(&mut n, g);
        pripoj(&mut n, ") – rozvrh ");
        pripoj(&mut n, v.rok.as_str());
        let ghost s0 = stranky@;
        let x = (n, Pohled::Zak(z.id));
        stranky.push(x);
        proof {
            assert(stranky_v(stranky@) =~= stranky_v(s0).push((x.0@, x.1)));
            assert(stranky_zaku(*skola, st, *v).take(q + 1) =~= stranky_zaku(*skola, st, *v).take(q as int).push((x.0@, x.1)));
        }
        q = q + 1;
    }
    proof {
        assert(stranky_zaku(*skola, st, *v).take(poradi@.len() as int) =~= stranky_zaku(*skola, st, *v));
    }
    let mut titulek = "Osobní rozvrhy žáků ".to_owned();
    pripoj(&mut titulek, v.rok.as_str());
    html_stranky(skola, v, titulek.as_str(), &stranky)
}

/// `n` mezer.
pub open spec fn mezery(n: int) -> Seq<char> {
    Seq::new(if n > 0 { n as nat } else { 0 }, |i: int| ' ')
}

/// Text zarovnaný doleva na šířku `w` znaků (`{:<w}`).
pub open spec fn vlevo(s: Seq<char>, w: int) -> Seq<char> {
    if s.len() < w {
        s + mezery(w - s.len())
    } else {
        s
    }
}

/// Text zarovnaný doprava na šířku `w` znaků (`{:>w}`).
pub open spec fn vpravo(s: Seq<char>, w: int) -> Seq<char> {
    if s.len() < w {
        mezery(w - s.len()) + s
    } else {
        s
    }
}

fn mezery_exec(n: usize) -> (r: String)
    ensures
        r@ == mezery(n as int),
{
    let mut r = String::new();
    let mut i: usize = 0;
    while i < n
        invariant
            i <= n,
            r@ == mezery(i as int),
        decreases n - i,
    {
        pridej_znak(&mut r, ' ');
        proof {
            assert(r@ =~= mezery(i + 1));
        }
        i = i + 1;
    }
    r
}

fn zarovnej_vlevo(s: &str, w: usize) -> (r: String)
    ensures
        r@ == vlevo(s@, w as int),
{
    let n = znaky(s).len();
    let mut r = s.to_owned();
    if n < w {
        pripoj(&mut r, mezery_exec(w - n).as_str());
    }
    r
}

fn zarovnej_vpravo(s: &str, w: usize) -> (r: String)
    ensures
        r@ == vpravo(s@, w as int),
{
    let n = znaky(s).len();
    if n < w {
        let mut r = mezery_exec(w - n);
        pripoj(&mut r, s);
        r
    } else {
        s.to_owned()
    }
}

/// Celé číslo se znaménkem.
pub open spec fn desitkove_i(x: int) -> Seq<char> {
    if x < 0 {
        "-"@ + crate::text::desitkove((-x) as nat)
    } else {
        crate::text::desitkove(x as nat)
    }
}

fn cislo_i64(x: i64) -> (r: String)
    ensures
        r@ == desitkove_i(x as int),
{
    if x < 0 {
        let a: u64 = (-(x as i128)) as u64;
        let mut r = "-".to_owned();
        pripoj(&mut r, crate::text::cislo(a).as_str());
        r
    } else {
        crate::text::cislo(x as u64)
    }
}

/// Číslo v desetinách na jedno desetinné místo („12.3“).
pub open spec fn desetinne(t: nat) -> Seq<char> {
    crate::text::desitkove(t / 10) + "."@ + crate::text::desitkove(t % 10)
}

fn desetinne_exec(t: u64) -> (r: String)
    ensures
        r@ == desetinne(t as nat),
{
    let mut r = crate::text::cislo(t / 10);
    pripoj(&mut r, ".");
    pripoj(&mut r, crate::text::cislo(t % 10).as_str());
    r
}

/// Zaokrouhlení na desetiny: `x` v jednotkách `1/d` desetiny (polovina nahoru).
pub open spec fn na_desetiny(x: nat, d: nat) -> nat {
    x / d + (if x % d >= d / 2 { 1nat } else { 0nat })
}

/// Řádky textu s odrážkou.
pub open spec fn radky_s(v: Seq<String>, odrazka: Seq<char>) -> Seq<char>
    decreases v.len(),
{
    if v.len() == 0 {
        Seq::empty()
    } else {
        radky_s(v.drop_last(), odrazka) + odrazka + v.last()@ + "\n"@
    }
}

fn radky_exec(out: &mut String, v: &Vec<String>, odrazka: &str)
    ensures
        final(out)@ == old(out)@ + radky_s(v@, odrazka@),
{
    let ghost o = out@;
    let mut i: usize = 0;
    while i < v.len()
        invariant
            i <= v@.len(),
            out@ == o + radky_s(v@.take(i as int), odrazka@),
        decreases v@.len() - i,
    {
        proof {
            assert(v@.take(i + 1).drop_last() =~= v@.take(i as int));
        }
        let mut r = odrazka.to_owned();
        pripoj(&mut r, v[i].as_str());
        pripoj(&mut r, "\n");
        pripoj(out, r.as_str());
        proof {
            assert(out@ =~= o + radky_s(v@.take(i + 1), odrazka@));
        }
        i = i + 1;
    }
    proof {
        assert(v@.take(v@.len() as int) =~= v@);
    }
}

/// Řádek statistiky třídy.
pub open spec fn radek_statistiky(skola: Skola, st: crate::validation::StatTridy) -> Seq<char> {
    "  "@ + vlevo(nazev_tridy_spec(skola, st.trida@), 12) + " "@ + vpravo(crate::text::desitkove(st.zaku as nat), 5) + " "@
        + vpravo(crate::text::desitkove(st.hodin_min as nat), 4) + "–"@ + vlevo(crate::text::desitkove(st.hodin_max as nat), 4)
        + " "@ + vpravo(crate::text::desitkove(st.rane_dny as nat), 6) + " "@ + vpravo(crate::text::desitkove(st.odpoledni as nat), 6)
        + " "@ + vpravo(crate::text::desitkove(st.nejdelsi_blok as nat), 6) + " "@ + vpravo(
        desetinne(na_desetiny(st.okna_prumer_setiny as nat, 10)),
        6,
    ) + "\n"@
}

/// Řádky statistik tříd.
pub open spec fn radky_statistik(skola: Skola, s: Seq<crate::validation::StatTridy>) -> Seq<char>
    decreases s.len(),
{
    if s.len() == 0 {
        Seq::empty()
    } else {
        radky_statistik(skola, s.drop_last()) + radek_statistiky(skola, s.last())
    }
}

/// Značka přetížení: od 31 h „‼“, od 26 h „!“ (úvazek v půlhodinách).
pub open spec fn znacka_uvazku(h: u64) -> Seq<char> {
    if h >= 62 {
        " ‼"@
    } else if h >= 52 {
        " !"@
    } else {
        ""@
    }
}

/// Řádek úvazku učitele (hodiny na jedno desetinné místo).
pub open spec fn radek_uvazku(u: Seq<char>, h: u64) -> Seq<char> {
    "  "@ + vlevo(u, 6) + " "@ + vpravo(desetinne(5 * h as nat), 5) + znacka_uvazku(h) + "\n"@
}

/// Řádky úvazků.
pub open spec fn radky_uvazku(z: Seq<(String, u64)>) -> Seq<char>
    decreases z.len(),
{
    if z.len() == 0 {
        Seq::empty()
    } else {
        radky_uvazku(z.drop_last()) + radek_uvazku(z.last().0@, z.last().1)
    }
}

/// Textový report: hlavička s rokem, souhrn výsledku (lekce, skóre, iterace, čas
/// zaokrouhlený na desetiny sekundy), varování, problémy, statistiky tříd a úvazky.
pub open spec fn report_spec(
    skola: Skola,
    v: Vysledek,
    k: crate::validation::Kontrola,
    z: Seq<(String, u64)>,
) -> Seq<char> {
    "=== Rozvrh "@ + v.rok@ + " ===\n"@ + "Lekcí: "@ + crate::text::desitkove(v.lekce@.len()) + " · skóre tvrdé/měkké: "@
        + desitkove_i(v.skore_tvrde as int) + "/"@ + desitkove_i(v.skore_mekke as int) + " · iterací: "@
        + crate::text::desitkove(v.iteraci as nat) + " · čas: "@ + desetinne(na_desetiny(v.cas_ms as nat, 100)) + " s\n"@
        + "\n--- Varování ("@ + crate::text::desitkove(v.varovani@.len()) + ") ---\n"@ + radky_s(v.varovani@, "  ⚠ "@)
        + "\n--- Problémy ("@ + crate::text::desitkove(k.problemy@.len()) + ") ---\n"@ + radky_s(k.problemy@, "  ✖ "@)
        + "\n--- Statistiky tříd ---\n"@ + "  "@ + vlevo("třída"@, 12) + " "@ + vpravo("žáků"@, 5) + " "@ + vpravo(
        "hodin"@,
        9,
    ) + " "@ + vpravo("7:20"@, 6) + " "@ + vpravo("odpo"@, 6) + " "@ + vpravo("blok"@, 6) + " "@ + vpravo("okna"@, 6)
        + "\n"@ + radky_statistik(skola, k.statistiky@) + "\n--- Úvazky učitelů (h/týden) ---\n"@ + radky_uvazku(z)
}

fn radek_statistiky_exec(skola: &Skola, st: &crate::validation::StatTridy) -> (r: String)
    ensures
        r@ == radek_statistiky(*skola, *st),
{
    let mut r = "  ".to_owned();
    pripoj(&mut r, zarovnej_vlevo(skola.nazev_tridy(st.trida.as_str()).as_str(), 12).as_str());
    pripoj(&mut r, " ");
    pripoj(&mut r, zarovnej_vpravo(crate::text::cislo(st.zaku as u64).as_str(), 5).as_str());
    pripoj(&mut r, " ");
    pripoj(&mut r, zarovnej_vpravo(crate::text::cislo(st.hodin_min as u64).as_str(), 4).as_str());
    pripoj(&mut r, "–");
    pripoj(&mut r, zarovnej_vlevo(crate::text::cislo(st.hodin_max as u64).as_str(), 4).as_str());
    pripoj(&mut r, " ");
    pripoj(&mut r, zarovnej_vpravo(crate::text::cislo(st.rane_dny as u64).as_str(), 6).as_str());
    pripoj(&mut r, " ");
    pripoj(&mut r, zarovnej_vpravo(crate::text::cislo(st.odpoledni as u64).as_str(), 6).as_str());
    pripoj(&mut r, " ");
    pripoj(&mut r, zarovnej_vpravo(crate::text::cislo(st.nejdelsi_blok as u64).as_str(), 6).as_str());
    pripoj(&mut r, " ");
    let o = st.okna_prumer_setiny as u64;
    let t = o / 10 + if o % 10 >= 5 { 1 } else { 0 };
    pripoj(&mut r, zarovnej_vpravo(desetinne_exec(t).as_str(), 6).as_str());
    pripoj(&mut r, "\n");
    r
}

fn radek_uvazku_exec(u: &String, h: u64) -> (r: String)
    ensures
        r@ == radek_uvazku(u@, h),
{
    let mut r = "  ".to_owned();
    pripoj(&mut r, zarovnej_vlevo(u.as_str(), 6).as_str());
    pripoj(&mut r, " ");
    let mut x = crate::text::cislo(h / 2);
    pripoj(&mut x, ".");
    pripoj(&mut x, if h % 2 == 1 { "5" } else { "0" });
    proof {
        let t = 5 * h as nat;
        assert(t / 10 == h / 2);
        assert(t % 10 == (if h % 2 == 1 { 5nat } else { 0nat }));
        reveal_strlit("5");
        reveal_strlit("0");
        assert(crate::text::desitkove(5) == seq![crate::text::cislice(5)]);
        assert(crate::text::desitkove(0) == seq![crate::text::cislice(0)]);
        assert("5"@ =~= seq![crate::text::cislice(5)]);
        assert("0"@ =~= seq![crate::text::cislice(0)]);
        assert(x@ == desetinne(t));
    }
    pripoj(&mut r, zarovnej_vpravo(x.as_str(), 5).as_str());
    pripoj(&mut r, if h >= 62 { " ‼" } else if h >= 52 { " !" } else { "" });
    pripoj(&mut r, "\n");
    r
}

/// Textový report pro příkazovou řádku (viz `report_spec`).
pub fn text_reportu(skola: &Skola, v: &Vysledek, k: &crate::validation::Kontrola, zateze: &Vec<(String, u64)>) -> (r: String)
    ensures
        r@ == report_spec(*skola, *v, *k, zateze@),
{
    let mut s = "=== Rozvrh ".to_owned();
    pripoj(&mut s, v.rok.as_str());
    pripoj(&mut s, " ===\n");
    pripoj(&mut s, "Lekcí: ");
    pripoj(&mut s, crate::text::cislo(v.lekce.len() as u64).as_str());
    pripoj(&mut s, " · skóre tvrdé/měkké: ");
    pripoj(&mut s, cislo_i64(v.skore_tvrde).as_str());
    pripoj(&mut s, "/");
    pripoj(&mut s, cislo_i64(v.skore_mekke).as_str());
    pripoj(&mut s, " · iterací: ");
    pripoj(&mut s, crate::text::cislo(v.iteraci).as_str());
    pripoj(&mut s, " · čas: ");
    let t = v.cas_ms / 100 + if v.cas_ms % 100 >= 50 { 1 } else { 0 };
    pripoj(&mut s, desetinne_exec(t).as_str());
    pripoj(&mut s, " s\n");
    pripoj(&mut s, "\n--- Varování (");
    pripoj(&mut s, crate::text::cislo(v.varovani.len() as u64).as_str());
    pripoj(&mut s, ") ---\n");
    radky_exec(&mut s, &v.varovani, "  ⚠ ");
    pripoj(&mut s, "\n--- Problémy (");
    pripoj(&mut s, crate::text::cislo(k.problemy.len() as u64).as_str());
    pripoj(&mut s, ") ---\n");
    radky_exec(&mut s, &k.problemy, "  ✖ ");
    pripoj(&mut s, "\n--- Statistiky tříd ---\n");
    pripoj(&mut s, "  ");
    pripoj(&mut s, zarovnej_vlevo("třída", 12).as_str());
    pripoj(&mut s, " ");
    pripoj(&mut s, zarovnej_vpravo("žáků", 5).as_str());
    pripoj(&mut s, " ");
    pripoj(&mut s, zarovnej_vpravo("hodin", 9).as_str());
    pripoj(&mut s, " ");
    pripoj(&mut s, zarovnej_vpravo("7:20", 6).as_str());
    pripoj(&mut s, " ");
    pripoj(&mut s, zarovnej_vpravo("odpo", 6).as_str());
    pripoj(&mut s, " ");
    pripoj(&mut s, zarovnej_vpravo("blok", 6).as_str());
    pripoj(&mut s, " ");
    pripoj(&mut s, zarovnej_vpravo("okna", 6).as_str());
    pripoj(&mut s, "\n");
    let ghost s1 = s@;
    let mut i: usize = 0;
    while i < k.statistiky.len()
        invariant
            i <= k.statistiky@.len(),
            s@ == s1 + radky_statistik(*skola, k.statistiky@.take(i as int)),
        decreases k.statistiky@.len() - i,
    {
        proof {
            assert(k.statistiky@.take(i + 1).drop_last() =~= k.statistiky@.take(i as int));
        }
        pripoj(&mut s, radek_statistiky_exec(skola, &k.statistiky[i]).as_str());
        proof {
            assert(s@ =~= s1 + radky_statistik(*skola, k.statistiky@.take(i + 1)));
        }
        i = i + 1;
    }
    proof {
        assert(k.statistiky@.take(k.statistiky@.len() as int) =~= k.statistiky@);
    }
    pripoj(&mut s, "\n--- Úvazky učitelů (h/týden) ---\n");
    let ghost s2 = s@;
    let mut i: usize = 0;
    while i < zateze.len()
        invariant
            i <= zateze@.len(),
            s@ == s2 + radky_uvazku(zateze@.take(i as int)),
        decreases zateze@.len() - i,
    {
        proof {
            assert(zateze@.take(i + 1).drop_last() =~= zateze@.take(i as int));
        }
        pripoj(&mut s, radek_uvazku_exec(&zateze[i].0, zateze[i].1).as_str());
        proof {
            assert(s@ =~= s2 + radky_uvazku(zateze@.take(i + 1)));
        }
        i = i + 1;
    }
    proof {
        assert(zateze@.take(zateze@.len() as int) =~= zateze@);
    }
    s
}

} // verus!
