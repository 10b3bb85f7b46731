//! Úpravy dat školy a roku: žáci, učební plán, číselníky, menu voleb a souhrny pro přehledy.

use crate::data::{
    index_mistnosti, index_predmetu, index_tridy, index_ucitele, retezce, Menu, Mistnost, PlanovaHodina, Pohlavi,
    Predmet, Skola, SkolniRok, SkupinaAj, StavStudenta, Struktura, Student, Trida, TypStudia, Ucitel,
};
use crate::hledani::{lemma_pocet_krok, lemma_pocet_nejvys, pocet};
use crate::mapa::Mapa;
use crate::rok::odhad_spec;
use crate::text::{orez, rovno};
use vstd::prelude::*;

verus! {

/// Žák třídy `t` ve skupině AJ `g`.
pub open spec fn ve_skupine(t: Seq<char>, g: SkupinaAj) -> spec_fn(Student) -> bool {
    |s: Student| s.trida@ == t && s.skupina_aj == g
}

/// Skupina nového žáka třídy `t`: ta ze skupin AJ, která má méně žáků (při shodě AJa).
pub open spec fn skupina_noveho(st: Seq<Student>, t: Seq<char>) -> SkupinaAj {
    if pocet(st, ve_skupine(t, SkupinaAj::A)) <= pocet(st, ve_skupine(t, SkupinaAj::B)) {
        SkupinaAj::A
    } else {
        SkupinaAj::B
    }
}

/// Počet žáků třídy ve skupině AJ.
fn pocet_ve_skupine(st: &Vec<Student>, t: &str, g: SkupinaAj) -> (r: usize)
    ensures
        r == pocet(st@, ve_skupine(t@, g)),
{
    let ghost p = ve_skupine(t@, g);
    let mut r: usize = 0;
    let mut k: usize = 0;
    while k < st.len()
        invariant
            k <= st@.len(),
            p == ve_skupine(t@, g),
            r == pocet(st@.take(k as int), p),
            r <= k,
        decreases st@.len() - k,
    {
        proof {
            lemma_pocet_krok(st@, p, k as int);
        }
        if rovno(st[k].trida.as_str(), t) && st[k].skupina_aj == g {
            r = r + 1;
        }
        k = k + 1;
    }
    proof {
        assert(st@.take(st@.len() as int) =~= st@);
    }
    r
}

/// Přidá žáka se jménem bez okrajových mezer do třídy `trida`: dostane další volné id,
/// pohlaví odhadnuté ze jména, menší ze skupin AJ třídy, žádné volby a stav aktivní.
/// Prázdné jméno nepřidá a vrátí `false`.
pub fn pridej_zaka(rok: &mut SkolniRok, jmeno: &str, trida: &str) -> (r: bool)
    requires
        old(rok).dalsi_id < u32::MAX,
    ensures
        r == (orez(jmeno@).len() > 0),
        !r ==> *final(rok) == *old(rok),
        r ==> final(rok).studenti@ == old(rok).studenti@.push(final(rok).studenti@.last()),
        r ==> final(rok).studenti@.last().id == old(rok).dalsi_id,
        r ==> final(rok).studenti@.last().jmeno@ == orez(jmeno@),
        r ==> final(rok).studenti@.last().trida@ == trida@,
        r ==> final(rok).studenti@.last().skupina_aj == skupina_noveho(old(rok).studenti@, trida@),
        r ==> final(rok).studenti@.last().pohlavi == odhad_spec(orez(jmeno@)),
        r ==> final(rok).studenti@.last().volby.polozky@.len() == 0,
        r ==> final(rok).studenti@.last().status == StavStudenta::Aktivni,
        r ==> final(rok).dalsi_id == old(rok).dalsi_id + 1,
        final(rok).menu@ == old(rok).menu@,
        final(rok).label@ == old(rok).label@,
{
    let zn = crate::text::znaky(jmeno);
    let oz = crate::text::orez_znaky(&zn);
    if oz.len() == 0 {
        return false;
    }
    let jm = crate::text::retezec(&oz);
    let a = pocet_ve_skupine(&rok.studenti, trida, SkupinaAj::A);
    let b = pocet_ve_skupine(&rok.studenti, trida, SkupinaAj::B);
    let id = rok.nove_id();
    let pohlavi = crate::rok::odhad_pohlavi(jm.as_str());
    let s = Student {
        id,
        jmeno: jm,
        trida: trida.to_string(),
        skupina_aj: if a <= b {
            SkupinaAj::A
        } else {
            SkupinaAj::B
        },
        pohlavi,
        volby: Mapa::new(),
        status: StavStudenta::Aktivni,
    };
    rok.studenti.push(s);
    true
}

/// Smaže žáky s daným id; ostatní zůstanou v původním pořadí.
pub fn smaz_zaka(rok: &mut SkolniRok, id: u32)
    ensures
        final(rok).studenti@ == old(rok).studenti@.filter(|s: Student| s.id != id),
        final(rok).menu@ == old(rok).menu@,
        final(rok).label@ == old(rok).label@,
        final(rok).dalsi_id == old(rok).dalsi_id,
{
    let ghost s0 = rok.studenti@;
    let ghost p = |s: Student| s.id != id;
    let mut i: usize = 0;
    let ghost mut k: int = 0;
    while i < rok.studenti.len()
        invariant
            0 <= k <= s0.len(),
            p == (|s: Student| s.id != id),
            rok.studenti@ == s0.take(k).filter(p) + s0.skip(k),
            i == s0.take(k).filter(p).len(),
            rok.menu@ == old(rok).menu@,
            rok.label@ == old(rok).label@,
            rok.dalsi_id == old(rok).dalsi_id,
        decreases rok.studenti@.len() - i,
    {
        proof {
            assert(rok.studenti@[i as int] == s0[k]);
            assert(s0.take(k + 1) =~= s0.take(k).push(s0[k]));
            s0.take(k).lemma_filter_push(s0[k], p);
        }
        if rok.studenti[i].id == id {
            let ghost pred = rok.studenti@;
            rok.studenti.remove(i);
            proof {
                assert(rok.studenti@ =~= s0.take(k + 1).filter(p) + s0.skip(k + 1));
            }
        } else {
            i = i + 1;
            proof {
                assert(rok.studenti@ =~= s0.take(k + 1).filter(p) + s0.skip(k + 1));
            }
        }
        proof {
            k = k + 1;
        }
    }
    proof {
        if k < s0.len() {
            assert(rok.studenti@.len() == s0.take(k).filter(p).len() + s0.skip(k).len());
        }
        assert(s0.take(k) =~= s0);
        assert(s0.skip(k) =~= Seq::<Student>::empty());
        assert(rok.studenti@ =~= s0.filter(p));
    }
}

/// Žák patří do přehledu: je v rozvrhu (není-li požadováno jinak) a ve vybrané třídě
/// (prázdný filtr = všechny třídy).
pub open spec fn v_prehledu(filtr: Seq<char>, jen_v_rozvrhu: bool) -> spec_fn(Student) -> bool {
    |s: Student| (!jen_v_rozvrhu || s.spec_v_rozvrhu()) && (filtr.len() == 0 || s.trida@ == filtr)
}

/// Žák přehledu je dívka.
pub open spec fn divka_prehledu(filtr: Seq<char>, jen_v_rozvrhu: bool) -> spec_fn(Student) -> bool {
    |s: Student| v_prehledu(filtr, jen_v_rozvrhu)(s) && s.pohlavi == Pohlavi::D
}

/// Žák přehledu je ve skupině AJa.
pub open spec fn aja_prehledu(filtr: Seq<char>, jen_v_rozvrhu: bool) -> spec_fn(Student) -> bool {
    |s: Student| v_prehledu(filtr, jen_v_rozvrhu)(s) && s.skupina_aj == SkupinaAj::A
}

/// Přehled žáků: počet, z toho dívek a žáků skupiny AJa.
pub fn souhrn_zaku(studenti: &Vec<Student>, filtr: &str, jen_v_rozvrhu: bool) -> (r: (usize, usize, usize))
    ensures
        r.0 == pocet(studenti@, v_prehledu(filtr@, jen_v_rozvrhu)),
        r.1 == pocet(studenti@, divka_prehledu(filtr@, jen_v_rozvrhu)),
        r.2 == pocet(studenti@, aja_prehledu(filtr@, jen_v_rozvrhu)),
{
    let ghost p = v_prehledu(filtr@, jen_v_rozvrhu);
    let ghost pd = divka_prehledu(filtr@, jen_v_rozvrhu);
    let ghost pa = aja_prehledu(filtr@, jen_v_rozvrhu);
    let prazdny = crate::text::znaky(filtr).len() == 0;
    let mut n: usize = 0;
    let mut d: usize = 0;
    let mut a: usize = 0;
    let mut k: usize = 0;
    while k < studenti.len()
        invariant
            k <= studenti@.len(),
            prazdny == (filtr@.len() == 0),
            p == v_prehledu(filtr@, jen_v_rozvrhu),
            pd == divka_prehledu(filtr@, jen_v_rozvrhu),
            pa == aja_prehledu(filtr@, jen_v_rozvrhu),
            n == pocet(studenti@.take(k as int), p),
            d == pocet(studenti@.take(k as int), pd),
            a == pocet(studenti@.take(k as int), pa),
            n <= k && d <= k && a <= k,
        decreases studenti@.len() - k,
    {
        proof {
            lemma_pocet_krok(studenti@, p, k as int);
            lemma_pocet_krok(studenti@, pd, k as int);
            lemma_pocet_krok(studenti@, pa, k as int);
        }
        let s = &studenti[k];
        let vybran = (!jen_v_rozvrhu || s.v_rozvrhu()) && (prazdny || rovno(s.trida.as_str(), filtr));
        if vybran {
            n = n + 1;
            if s.pohlavi == Pohlavi::D {
                d = d + 1;
            }
            if s.skupina_aj == SkupinaAj::A {
                a = a + 1;
            }
        }
        k = k + 1;
    }
    proof {
        assert(studenti@.take(studenti@.len() as int) =~= studenti@);
    }
    (n, d, a)
}

/// Žák je v rozvrhu.
pub open spec fn v_rozvrhu_p() -> spec_fn(Student) -> bool {
    |s: Student| s.spec_v_rozvrhu()
}

/// Žák v rozvrhu chodí do třídy bez následníka (maturant).
pub open spec fn maturant(skola: Skola) -> spec_fn(Student) -> bool {
    |s: Student|
        s.spec_v_rozvrhu() && index_tridy(skola.tridy@, s.trida@) >= 0 && skola.tridy@[index_tridy(
            skola.tridy@,
            s.trida@,
        )].naslednik.is_none()
}

/// Souhrn roku před přechodem: počet žáků v rozvrhu a z nich maturantů.
pub fn souhrn_roku(skola: &Skola, rok: &SkolniRok) -> (r: (usize, usize))
    ensures
        r.0 == pocet(rok.studenti@, v_rozvrhu_p()),
        r.1 == pocet(rok.studenti@, maturant(*skola)),
{
    let ghost p = v_rozvrhu_p();
    let ghost pm = maturant(*skola);
    let mut a: usize = 0;
    let mut m: usize = 0;
    let mut k: usize = 0;
    while k < rok.studenti.len()
        invariant
            k <= rok.studenti@.len(),
            p == v_rozvrhu_p(),
            pm == maturant(*skola),
            a == pocet(rok.studenti@.take(k as int), p),
            m == pocet(rok.studenti@.take(k as int), pm),
            a <= k && m <= k,
        decreases rok.studenti@.len() - k,
    {
        proof {
            lemma_pocet_krok(rok.studenti@, p, k as int);
            lemma_pocet_krok(rok.studenti@, pm, k as int);
        }
        let s = &rok.studenti[k];
        if s.v_rozvrhu() {
            a = a + 1;
            match skola.trida(s.trida.as_str()) {
                Some(t) => {
                    if t.naslednik.is_none() {
                        m = m + 1;
                    }
                },
                None => {},
            }
        }
        k = k + 1;
    }
    proof {
        assert(rok.studenti@.take(rok.studenti@.len() as int) =~= rok.studenti@);
    }
    (a, m)
}

/// Počet voleb žáka v menu.
pub open spec fn pocet_voleb_zaka(s: Student, menu: Seq<char>) -> int {
    if s.volby.ma(menu) {
        s.volby.hodnota(menu)@.len() as int
    } else {
        0
    }
}

/// Žák chodí do třídy, pro kterou je menu.
pub open spec fn clen_menu(m: Menu) -> spec_fn(Student) -> bool {
    |s: Student| retezce(m.tridy@).contains(s.trida@)
}

/// Žák třídy menu nemá zvolený plný počet voleb.
pub open spec fn nekompletni(m: Menu) -> spec_fn(Student) -> bool {
    |s: Student| retezce(m.tridy@).contains(s.trida@) && pocet_voleb_zaka(s, m.id@) < m.pocet_voleb
}

/// Kompletnost voleb menu `mi`: kolik žáků je v jeho třídách a kolik z nich nemá plný počet voleb.
pub fn kompletnost_voleb(rok: &SkolniRok, mi: usize) -> (r: (usize, usize))
    requires
        mi < rok.menu@.len(),
        crate::rok::volby_platne(rok.studenti@),
    ensures
        r.0 == pocet(rok.studenti@, clen_menu(rok.menu@[mi as int])),
        r.1 == pocet(rok.studenti@, nekompletni(rok.menu@[mi as int])),
{
    let m = &rok.menu[mi];
    let ghost p = clen_menu(*m);
    let ghost pn = nekompletni(*m);
    let mut c: usize = 0;
    let mut ch: usize = 0;
    let mut k: usize = 0;
    while k < rok.studenti.len()
        invariant
            k <= rok.studenti@.len(),
            *m == rok.menu@[mi as int],
            crate::rok::volby_platne(rok.studenti@),
            p == clen_menu(*m),
            pn == nekompletni(*m),
            c == pocet(rok.studenti@.take(k as int), p),
            ch == pocet(rok.studenti@.take(k as int), pn),
            c <= k && ch <= k,
        decreases rok.studenti@.len() - k,
    {
        proof {
            lemma_pocet_krok(rok.studenti@, p, k as int);
            lemma_pocet_krok(rok.studenti@, pn, k as int);
        }
        let s = &rok.studenti[k];
        proof {
            assert(s.volby.dobre());
        }
        if crate::rok::obsahuje(&m.tridy, s.trida.as_str()) {
            c = c + 1;
            let n: usize = match s.volby.get(m.id.as_str()) {
                Some(v) => v.len(),
                None => 0,
            };
            if n < m.pocet_voleb as usize {
                ch = ch + 1;
            }
        }
        k = k + 1;
    }
    proof {
        assert(rok.studenti@.take(rok.studenti@.len() as int) =~= rok.studenti@);
    }
    (c, ch)
}

/// Hodin týdně podle učebního plánu třídy `t`.
pub open spec fn hodin_planu(plan: Seq<PlanovaHodina>, t: Seq<char>) -> int
    decreases plan.len(),
{
    if plan.len() == 0 {
        0
    } else {
        hodin_planu(plan.drop_last(), t) + if plan.last().trida@ == t {
            plan.last().hodin as int
        } else {
            0
        }
    }
}

/// Hodin týdně z volitelných předmětů menu pro třídu `t` (hodin menu × počet voleb žáka).
pub open spec fn hodin_voleb(menu: Seq<Menu>, t: Seq<char>) -> int
    decreases menu.len(),
{
    if menu.len() == 0 {
        0
    } else {
        hodin_voleb(menu.drop_last(), t) + if retezce(menu.last().tridy@).contains(t) {
            menu.last().hodin_tydne * menu.last().pocet_voleb
        } else {
            0
        }
    }
}

proof fn lemma_hodin_planu(plan: Seq<PlanovaHodina>, t: Seq<char>, k: int)
    requires
        0 <= k <= plan.len(),
    ensures
        0 <= hodin_planu(plan.take(k), t) <= 255 * k,
    decreases k,
{
    if k > 0 {
        assert(plan.take(k).drop_last() =~= plan.take(k - 1));
        lemma_hodin_planu(plan, t, k - 1);
    }
}

proof fn lemma_hodin_voleb(menu: Seq<Menu>, t: Seq<char>, k: int)
    requires
        0 <= k <= menu.len(),
    ensures
        0 <= hodin_voleb(menu.take(k), t) <= 65025 * k,
    decreases k,
{
    if k > 0 {
        let q = menu.take(k);
        assert(q.drop_last() =~= menu.take(k - 1));
        lemma_hodin_voleb(menu, t, k - 1);
        let m = menu[k - 1];
        assert(q.last() == m);
        let x: int = m.hodin_tydne * m.pocet_voleb;
        assert(0 <= x <= 65025) by (nonlinear_arith)
            requires
                x == m.hodin_tydne * m.pocet_voleb,
                0 <= m.hodin_tydne <= 255,
                0 <= m.pocet_voleb <= 255,
        ;
        assert(hodin_voleb(q, t) == hodin_voleb(q.drop_last(), t) + if retezce(m.tridy@).contains(t) {
            x
        } else {
            0
        });
    }
}

/// Týdenní hodiny třídy `t`: z učebního plánu a z volitelných předmětů.
pub fn hodiny_tridy(skola: &Skola, rok: &SkolniRok, t: &str) -> (r: (u32, u32))
    requires
        255 * skola.plan@.len() <= u32::MAX,
        65025 * rok.menu@.len() <= u32::MAX,
    ensures
        r.0 == hodin_planu(skola.plan@, t@),
        r.1 == hodin_voleb(rok.menu@, t@),
{
    let mut h: u32 = 0;
    let mut k: usize = 0;
    while k < skola.plan.len()
        invariant
            k <= skola.plan@.len(),
            255 * skola.plan@.len() <= u32::MAX,
            h == hodin_planu(skola.plan@.take(k as int), t@),
        decreases skola.plan@.len() - k,
    {
        proof {
            assert(skola.plan@.take(k + 1).drop_last() =~= skola.plan@.take(k as int));
            lemma_hodin_planu(skola.plan@, t@, k as int);
        }
        if rovno(skola.plan[k].trida.as_str(), t) {
            h = h + skola.plan[k].hodin as u32;
        }
        k = k + 1;
    }
    let mut v: u32 = 0;
    let mut k: usize = 0;
    while k < rok.menu.len()
        invariant
            k <= rok.menu@.len(),
            65025 * rok.menu@.len() <= u32::MAX,
            v == hodin_voleb(rok.menu@.take(k as int), t@),
        decreases rok.menu@.len() - k,
    {
        proof {
            assert(rok.menu@.take(k + 1).drop_last() =~= rok.menu@.take(k as int));
            lemma_hodin_voleb(rok.menu@, t@, k as int);
        }
        let m = &rok.menu[k];
        if crate::rok::obsahuje(&m.tridy, t) {
            let ht = m.hodin_tydne as u32;
            let pv = m.pocet_voleb as u32;
            proof {
                assert(ht * pv <= 255 * 255) by (nonlinear_arith)
                    requires
                        ht <= 255,
                        pv <= 255,
                ;
            }
            let x: u32 = ht * pv;
            v = v + x;
        }
        k = k + 1;
    }
    proof {
        assert(skola.plan@.take(skola.plan@.len() as int) =~= skola.plan@);
        assert(rok.menu@.take(rok.menu@.len() as int) =~= rok.menu@);
    }
    (h, v)
}

/// Id prvního prvku, nebo prázdný text.
pub open spec fn prvni_id_nebo_prazdne(ids: Seq<Seq<char>>) -> Seq<char> {
    if ids.len() > 0 {
        ids[0]
    } else {
        Seq::empty()
    }
}

/// Přidá do učebního plánu třídy `t` řádek: první předmět číselníku, 1 hodina, celou třídou
/// s prvním učitelem, bez dvouhodinovek.
pub fn pridej_radek_planu(skola: &mut Skola, t: &str)
    ensures
        final(skola).plan@.len() == old(skola).plan@.len() + 1,
        final(skola).plan@.take(old(skola).plan@.len() as int) == old(skola).plan@,
        final(skola).plan@.last().trida@ == t@,
        final(skola).plan@.last().predmet@ == prvni_id_nebo_prazdne(old(skola).predmety@.map_values(|p: crate::data::Predmet| p.id@)),
        final(skola).plan@.last().hodin == 1,
        !final(skola).plan@.last().dvoj,
        final(skola).plan@.last().struktura matches Struktura::CelouTridou(u) && u@ == prvni_id_nebo_prazdne(
            old(skola).ucitele@.map_values(|u: crate::data::Ucitel| u.id@),
        ),
        final(skola).tridy@ == old(skola).tridy@,
        final(skola).mistnosti@ == old(skola).mistnosti@,
        final(skola).ucitele@ == old(skola).ucitele@,
        final(skola).predmety@ == old(skola).predmety@,
{
    let u = if skola.ucitele.len() > 0 {
        skola.ucitele[0].id.clone()
    } else {
        String::new()
    };
    let p = if skola.predmety.len() > 0 {
        skola.predmety[0].id.clone()
    } else {
        String::new()
    };
    skola.plan.push(PlanovaHodina { trida: t.to_string(), predmet: p, hodin: 1, struktura: Struktura::CelouTridou(u), dvoj: false });
    proof {
        assert(final(skola).plan@.take(old(skola).plan@.len() as int) =~= old(skola).plan@);
    }
}

/// Číselník školy.
#[derive(Clone, Copy, Debug, PartialEq, Eq, Structural)]
pub enum Ciselnik {
    Tridy,
    Mistnosti,
    Ucitele,
    Predmety,
}

/// Výsledek přidání položky do číselníku.
#[derive(Clone, Copy, Debug, PartialEq, Eq, Structural)]
pub enum Pridani {
    Pridano,
    /// Položka s tímto id už v číselníku je.
    Existuje,
    /// Id je po ořezání mezer prázdné.
    PrazdneId,
}

/// Položka s id `x` už v číselníku je.
pub open spec fn v_ciselniku(skola: Skola, c: Ciselnik, x: Seq<char>) -> bool {
    match c {
        Ciselnik::Tridy => index_tridy(skola.tridy@, x) >= 0,
        Ciselnik::Mistnosti => index_mistnosti(skola.mistnosti@, x) >= 0,
        Ciselnik::Ucitele => index_ucitele(skola.ucitele@, x) >= 0,
        Ciselnik::Predmety => index_predmetu(skola.predmety@, x) >= 0,
    }
}

/// Výsledek přidání id `x` (bez okrajových mezer).
pub open spec fn pridani(skola: Skola, c: Ciselnik, x: Seq<char>) -> Pridani {
    if x.len() == 0 {
        Pridani::PrazdneId
    } else if v_ciselniku(skola, c, x) {
        Pridani::Existuje
    } else {
        Pridani::Pridano
    }
}

/// Přidá do číselníku položku s id bez okrajových mezer a výchozími údaji: třída 1. ročníku
/// osmiletého studia s kmenovou učebnou a názvem podle id, místnost pro 30 žáků (ne kmenová),
/// učitel „(doplnit)“ s nejvýše 7 hodinami denně, předmět, který smí do kmenové učebny.
/// Prázdné nebo už použité id nepřidá nic.
pub fn pridej_do_ciselniku(skola: &mut Skola, c: Ciselnik, id: &str) -> (r: Pridani)
    ensures
        r == pridani(*old(skola), c, orez(id@)),
        r != Pridani::Pridano ==> *final(skola) == *old(skola),
        final(skola).plan@ == old(skola).plan@,
        final(skola).nastaveni == old(skola).nastaveni,
        c != Ciselnik::Tridy ==> final(skola).tridy@ == old(skola).tridy@,
        c != Ciselnik::Mistnosti ==> final(skola).mistnosti@ == old(skola).mistnosti@,
        c != Ciselnik::Ucitele ==> final(skola).ucitele@ == old(skola).ucitele@,
        c != Ciselnik::Predmety ==> final(skola).predmety@ == old(skola).predmety@,
        r == Pridani::Pridano && c == Ciselnik::Tridy ==> {
            let t = final(skola).tridy@.last();
            &&& final(skola).tridy@ == old(skola).tridy@.push(t)
            &&& t.id@ == orez(id@) && t.nazev@ == orez(id@) && t.kmenova@ == orez(id@)
            &&& t.rocnik == 1 && t.typ == TypStudia::Osmilete
            &&& t.naslednik.is_none() && t.omezeni_prepsat.is_none()
        },
        r == Pridani::Pridano && c == Ciselnik::Mistnosti ==> {
            let m = final(skola).mistnosti@.last();
            &&& final(skola).mistnosti@ == old(skola).mistnosti@.push(m)
            &&& m.id@ == orez(id@) && m.nazev@ == orez(id@) && m.kapacita == 30 && !m.kmenova
        },
        r == Pridani::Pridano && c == Ciselnik::Ucitele ==> {
            let u = final(skola).ucitele@.last();
            &&& final(skola).ucitele@ == old(skola).ucitele@.push(u)
            &&& u.id@ == orez(id@) && u.jmeno@ == "(doplnit)"@ && u.volno@.len() == 0 && u.max_den == 7
            &&& u.preferovana_mistnost.is_none() && u.preferovane_tridy@.len() == 0
        },
        r == Pridani::Pridano && c == Ciselnik::Predmety ==> {
            let p = final(skola).predmety@.last();
            &&& final(skola).predmety@ == old(skola).predmety@.push(p)
            &&& p.id@ == orez(id@) && p.nazev@ == orez(id@) && p.specialni_mistnosti@.len() == 0 && p.kmenova_ok
        },
{
    let zn = crate::text::znaky(id);
    let oz = crate::text::orez_znaky(&zn);
    if oz.len() == 0 {
        return Pridani::PrazdneId;
    }
    let x = crate::text::retezec(&oz);
    match c {
        Ciselnik::Tridy => {
            if skola.trida(x.as_str()).is_some() {
                return Pridani::Existuje;
            }
            skola.tridy.push(
                Trida {
                    id: x.clone(),
                    nazev: x.clone(),
                    rocnik: 1,
                    typ: TypStudia::Osmilete,
                    kmenova: x,
                    naslednik: None,
                    omezeni_prepsat: None,
                },
            );
        },
        Ciselnik::Mistnosti => {
            if skola.mistnost(x.as_str()).is_some() {
                return Pridani::Existuje;
            }
            skola.mistnosti.push(Mistnost { id: x.clone(), nazev: x, kapacita: 30, kmenova: false });
        },
        Ciselnik::Ucitele => {
            if skola.ucitel(x.as_str()).is_some() {
                return Pridani::Existuje;
            }
            skola.ucitele.push(
                Ucitel {
                    id: x,
                    jmeno: "(doplnit)".to_string(),
                    volno: Vec::new(),
                    max_den: 7,
                    preferovana_mistnost: None,
                    preferovane_tridy: Vec::new(),
                },
            );
        },
        Ciselnik::Predmety => {
            if skola.predmet(x.as_str()).is_some() {
                return Pridani::Existuje;
            }
            skola.predmety.push(
                Predmet { id: x.clone(), nazev: x, specialni_mistnosti: Vec::new(), kmenova_ok: true },
            );
        },
    }
    Pridani::Pridano
}

/// Posloupnost neklesá.
pub open spec fn neklesajici(s: Seq<u8>) -> bool {
    forall|i: int, j: int| 0 <= i < j < s.len() ==> s[i] <= s[j]
}

/// Seřadí hodnoty vzestupně.
fn serad(v: &Vec<u8>) -> (r: Vec<u8>)
    ensures
        neklesajici(r@),
        r@.to_multiset() == v@.to_multiset(),
{
    broadcast use vstd::seq_lib::group_to_multiset_ensures;

    let mut r: Vec<u8> = Vec::new();
    let mut k: usize = 0;
    while k < v.len()
        invariant
            k <= v@.len(),
            neklesajici(r@),
            r@.to_multiset() == v@.take(k as int).to_multiset(),
        decreases v@.len() - k,
    {
        let x = v[k];
        let mut p: usize = 0;
        while p < r.len() && r[p] <= x
            invariant
                p <= r@.len(),
                forall|q: int| 0 <= q < p ==> r@[q] <= x,
            decreases r@.len() - p,
        {
            p = p + 1;
        }
        let ghost r0 = r@;
        r.insert(p, x);
        proof {
            assert(v@.take(k + 1) =~= v@.take(k as int).push(x));
            vstd::seq_lib::to_multiset_insert(r0, p as int, x);
            vstd::seq_lib::to_multiset_build(v@.take(k as int), x);
            assert forall|i: int, j: int| 0 <= i < j < r@.len() implies r@[i] <= r@[j] by {
                if j < p {
                    assert(r@[i] == r0[i] && r@[j] == r0[j]);
                } else if j == p {
                    assert(r@[i] == r0[i]);
                } else if i < p {
                    assert(r@[i] == r0[i] && r@[j] == r0[j - 1]);
                } else if i == p {
                    assert(r@[j] == r0[j - 1]);
                    assert(r0[p as int] > x);
                } else {
                    assert(r@[i] == r0[i - 1] && r@[j] == r0[j - 1]);
                }
            }
        }
        k = k + 1;
    }
    proof {
        assert(v@.take(v@.len() as int) =~= v@);
    }
    r
}

/// Označí (`volno`) nebo odznačí hodinu `s`, kdy učitel neučí: označená přibude a hodiny
/// se seřadí vzestupně, odznačená zmizí celá.
pub fn prepni_volno(u: &mut Ucitel, s: u8, volno: bool)
    ensures
        volno ==> neklesajici(final(u).volno@) && final(u).volno@.to_multiset() == old(u).volno@.push(s).to_multiset(),
        !volno ==> final(u).volno@ == old(u).volno@.filter(|x: u8| x != s),
        final(u).id == old(u).id,
        final(u).jmeno == old(u).jmeno,
        final(u).max_den == old(u).max_den,
        final(u).preferovana_mistnost == old(u).preferovana_mistnost,
        final(u).preferovane_tridy@ == old(u).preferovane_tridy@,
{
    if volno {
        u.volno.push(s);
        u.volno = serad(&u.volno);
    } else {
        let ghost p = |x: u8| x != s;
        let mut r: Vec<u8> = Vec::new();
        let mut k: usize = 0;
        while k < u.volno.len()
            invariant
                k <= u.volno@.len(),
                u.volno@ == old(u).volno@,
                p == (|x: u8| x != s),
                r@ == u.volno@.take(k as int).filter(p),
            decreases u.volno@.len() - k,
        {
            proof {
                assert(u.volno@.take(k + 1) =~= u.volno@.take(k as int).push(u.volno@[k as int]));
                u.volno@.take(k as int).lemma_filter_push(u.volno@[k as int], p);
            }
            if u.volno[k] != s {
                r.push(u.volno[k]);
            }
            k = k + 1;
        }
        proof {
            assert(u.volno@.take(u.volno@.len() as int) =~= u.volno@);
        }
        u.volno = r;
    }
}

/// Přidá (`ano`) nebo odebere text v seznamu: přidaný se připojí na konec, odebraný zmizí
/// se všemi výskyty (výběr odborných místností předmětu, tříd menu).
pub fn prepni_text(v: &mut Vec<String>, x: &str, ano: bool)
    ensures
        ano ==> retezce(final(v)@) == retezce(old(v)@).push(x@),
        !ano ==> retezce(final(v)@) == retezce(old(v)@).filter(|y: Seq<char>| y != x@),
{
    if ano {
        v.push(x.to_string());
        proof {
            assert(retezce(final(v)@) =~= retezce(old(v)@).push(x@));
        }
    } else {
        let ghost p = |y: Seq<char>| y != x@;
        let mut r: Vec<String> = Vec::new();
        let mut k: usize = 0;
        while k < v.len()
            invariant
                k <= v@.len(),
                v@ == old(v)@,
                p == (|y: Seq<char>| y != x@),
                retezce(r@) == retezce(v@).take(k as int).filter(p),
            decreases v@.len() - k,
        {
            proof {
                assert(retezce(v@).take(k + 1) =~= retezce(v@).take(k as int).push(v@[k as int]@));
                retezce(v@).take(k as int).lemma_filter_push(v@[k as int]@, p);
            }
            if !rovno(v[k].as_str(), x) {
                let ghost r0 = r@;
                r.push(v[k].clone());
                proof {
                    assert(retezce(r@) =~= retezce(r0).push(v@[k as int]@));
                }
            }
            k = k + 1;
        }
        proof {
            assert(retezce(v@).take(v@.len() as int) =~= retezce(v@));
        }
        *v = r;
    }
}

/// Jiná varianta rozvrhu: nové semínko z lineárního kongruenčního kroku (modulo 2^64),
/// zkrácené pod 100 000.
pub fn jina_varianta(seed: u64) -> (r: u64)
    ensures
        r == vstd::wrapping::u64_specs::wrapping_add(
            vstd::wrapping::u64_specs::wrapping_mul(seed, 6364136223846793005u64),
            1442695040888963407u64,
        ) % 100_000,
{
    seed.wrapping_mul(6364136223846793005).wrapping_add(1442695040888963407) % 100_000
}

/// Zapne (`prepsat`) nebo vypne vlastní limity P1 třídy; zapnuté začnou výchozími limity
/// podle efektivního ročníku.
pub fn prepis_limitu(t: &mut Trida, prepsat: bool)
    requires
        old(t).platna(),
    ensures
        final(t).omezeni_prepsat == if prepsat {
            Some(crate::data::omezeni_rocniku(old(t).ef_rocnik() as u8))
        } else {
            None
        },
        final(t).id == old(t).id,
        final(t).nazev == old(t).nazev,
        final(t).rocnik == old(t).rocnik,
        final(t).typ == old(t).typ,
        final(t).kmenova == old(t).kmenova,
        final(t).naslednik == old(t).naslednik,
{
    if prepsat {
        let ef = t.efektivni_rocnik();
        t.omezeni_prepsat = Some(crate::data::Omezeni::pro_rocnik(ef));
    } else {
        t.omezeni_prepsat = None;
    }
}

/// Přidá prázdné menu voleb „Nové menu n“ s id „menu-n“ (n = nový počet menu): 2 hodiny
/// týdně, bez dvouhodinovek, jedna volba na žáka. Vrátí jeho index.
pub fn nove_menu(rok: &mut SkolniRok) -> (r: usize)
    requires
        old(rok).menu@.len() < u64::MAX,
    ensures
        r == old(rok).menu@.len(),
        final(rok).menu@ == old(rok).menu@.push(final(rok).menu@.last()),
        final(rok).menu@.last().id@ == "menu-"@ + crate::text::desitkove((r + 1) as nat),
        final(rok).menu@.last().nazev@ == "Nové menu "@ + crate::text::desitkove((r + 1) as nat),
        final(rok).menu@.last().tridy@.len() == 0,
        final(rok).menu@.last().volby@.len() == 0,
        final(rok).menu@.last().hodin_tydne == 2,
        !final(rok).menu@.last().dvojhodina,
        final(rok).menu@.last().pocet_voleb == 1,
        final(rok).studenti@ == old(rok).studenti@,
        final(rok).label == old(rok).label,
        final(rok).dalsi_id == old(rok).dalsi_id,
{
    let r = rok.menu.len();
    let n = crate::text::cislo(r as u64 + 1);
    let mut id = String::new();
    crate::text::pripoj(&mut id, "menu-");
    crate::text::pripoj(&mut id, n.as_str());
    let mut nazev = String::new();
    crate::text::pripoj(&mut nazev, "Nové menu ");
    crate::text::pripoj(&mut nazev, n.as_str());
    proof {
        assert(id@ =~= "menu-"@ + crate::text::desitkove((r + 1) as nat));
        assert(nazev@ =~= "Nové menu "@ + crate::text::desitkove((r + 1) as nat));
    }
    rok.menu.push(
        Menu {
            id,
            nazev,
            tridy: Vec::new(),
            volby: Vec::new(),
            hodin_tydne: 2,
            dvojhodina: false,
            pocet_voleb: 1,
        },
    );
    r
}

/// Id volby s číslem `n`: „Vn“.
pub open spec fn id_volby(n: nat) -> Seq<char> {
    seq!['V'] + crate::text::desitkove(n)
}

/// Číslo `n` nové volby menu: nejmenší od počtu voleb + 1, jehož id ještě žádná volba nemá.
pub open spec fn cislo_nove_volby(m: Menu, n: nat) -> bool {
    let ids = crate::rok::ids_voleb(m@);
    &&& n >= m.volby@.len() + 1
    &&& !ids.contains(id_volby(n))
    &&& forall|k: nat| m.volby@.len() + 1 <= k < n ==> ids.contains(#[trigger] id_volby(k))
}

/// Přidá do menu volbu „Volba n“ s id „Vn“ (n viz `cislo_nove_volby`) s prvním předmětem
/// a prvním učitelem číselníku a bez kapacity.
pub fn pridej_volbu(skola: &Skola, m: &mut Menu)
    requires
        2 * old(m).volby@.len() + 2 < u64::MAX,
    ensures
        final(m).volby@ == old(m).volby@.push(final(m).volby@.last()),
        exists|n: nat|
            cislo_nove_volby(*old(m), n) && final(m).volby@.last().id@ == id_volby(n) && final(m).volby@.last().nazev@
                == "Volba "@ + crate::text::desitkove(n),
        final(m).volby@.last().predmet@ == prvni_id_nebo_prazdne(skola.predmety@.map_values(|p: Predmet| p.id@)),
        final(m).volby@.last().ucitel@ == prvni_id_nebo_prazdne(skola.ucitele@.map_values(|u: Ucitel| u.id@)),
        final(m).volby@.last().kapacita.is_none(),
        final(m).id == old(m).id,
        final(m).nazev == old(m).nazev,
        final(m).tridy@ == old(m).tridy@,
        final(m).hodin_tydne == old(m).hodin_tydne,
        final(m).dvojhodina == old(m).dvojhodina,
        final(m).pocet_voleb == old(m).pocet_voleb,
{
    let ghost ids = crate::rok::ids_voleb(m@);
    let delka = m.volby.len() as u64;
    proof {
        crate::doplneni::lemma_ids_voleb(*m);
        crate::skupiny::lemma_volne_cislo(ids, seq!['V'], delka + 1);
    }
    let mut n: u64 = delka + 1;
    let mut id = String::new();
    crate::text::pridej_znak(&mut id, 'V');
    crate::text::pripoj(&mut id, crate::text::cislo(n).as_str());
    while crate::rok::je_volba(m, id.as_str())
        invariant
            delka + 1 <= n <= 2 * delka + 1,
            2 * delka + 2 < u64::MAX,
            delka == ids.len(),
            *m == *old(m),
            ids == crate::rok::ids_voleb(m@),
            id@ == id_volby(n as nat),
            forall|k: nat| delka + 1 <= k < n ==> ids.contains(#[trigger] id_volby(k)),
            exists|k: int| delka + 1 <= k < delka + 1 + ids.len() + 1 && !ids.contains(#[trigger] (seq!['V'] + crate::text::desitkove(k as nat))),
        decreases 2 * delka + 1 - n,
    {
        proof {
            assert(id@ =~= seq!['V'] + crate::text::desitkove(n as nat));
            if n == 2 * delka + 1 {
                let k = choose|k: int| delka + 1 <= k < delka + 1 + ids.len() + 1 && !ids.contains(#[trigger] (seq!['V'] + crate::text::desitkove(k as nat)));
                assert(ids.contains(id_volby(k as nat)));
            }
        }
        n = n + 1;
        id = String::new();
        crate::text::pridej_znak(&mut id, 'V');
        crate::text::pripoj(&mut id, crate::text::cislo(n).as_str());
    }
    let mut nazev = String::new();
    crate::text::pripoj(&mut nazev, "Volba ");
    crate::text::pripoj(&mut nazev, crate::text::cislo(n).as_str());
    let predmet = if skola.predmety.len() > 0 {
        skola.predmety[0].id.clone()
    } else {
        String::new()
    };
    let ucitel = if skola.ucitele.len() > 0 {
        skola.ucitele[0].id.clone()
    } else {
        String::new()
    };
    proof {
        assert(cislo_nove_volby(*old(m), n as nat));
    }
    m.volby.push(crate::data::Volba { id, nazev, predmet, ucitel, kapacita: None });
}

/// Shodují se dva seznamy textů?
fn stejne_retezce(a: &Vec<String>, b: &Vec<String>) -> (r: bool)
    ensures
        r == (retezce(a@) == retezce(b@)),
{
    if a.len() != b.len() {
        proof {
            assert(retezce(a@).len() != retezce(b@).len());
        }
        return false;
    }
    let mut k: usize = 0;
    while k < a.len()
        invariant
            k <= a@.len(),
            a@.len() == b@.len(),
            forall|i: int| 0 <= i < k ==> a@[i]@ == b@[i]@,
        decreases a@.len() - k,
    {
        if !rovno(a[k].as_str(), b[k].as_str()) {
            proof {
                assert(retezce(a@)[k as int] != retezce(b@)[k as int]);
            }
            return false;
        }
        k = k + 1;
    }
    proof {
        assert(retezce(a@) =~= retezce(b@));
    }
    true
}

/// Vybrané volby bez prázdných a bez opakování, v pořadí prvního výskytu.
pub open spec fn vyber_voleb(v: Seq<Seq<char>>) -> Seq<Seq<char>>
    decreases v.len(),
{
    if v.len() == 0 {
        Seq::empty()
    } else {
        let r = vyber_voleb(v.drop_last());
        if v.last().len() > 0 && !r.contains(v.last()) {
            r.push(v.last())
        } else {
            r
        }
    }
}

/// Zapíše žákovi výběr voleb menu z editoru: prázdné položky a opakování vynechá; když se
/// výběr liší od dosavadního, uloží ho (prázdný výběr menu žákovi odebere). Vrátí počet
/// vybraných voleb.
pub fn nastav_volby(s: &mut Student, menu_id: &str, vyber: &Vec<String>) -> (r: usize)
    requires
        old(s).volby.dobre(),
    ensures
        r == vyber_voleb(retezce(vyber@)).len(),
        final(s).volby.dobre(),
        vyber_voleb(retezce(vyber@)) == crate::rok::volby_v_menu(*old(s), menu_id@) ==> final(s).volby == old(s).volby,
        vyber_voleb(retezce(vyber@)) != crate::rok::volby_v_menu(*old(s), menu_id@) ==> crate::rok::volby_map(final(s).volby) == if r == 0 {
            crate::rok::volby_map(old(s).volby).remove(menu_id@)
        } else {
            crate::rok::volby_map(old(s).volby).insert(menu_id@, vyber_voleb(retezce(vyber@)))
        },
        final(s).id == old(s).id,
        final(s).jmeno == old(s).jmeno,
        final(s).trida == old(s).trida,
        final(s).skupina_aj == old(s).skupina_aj,
        final(s).pohlavi == old(s).pohlavi,
        final(s).status == old(s).status,
{
    let ghost w = retezce(vyber@);
    let mut nove: Vec<String> = Vec::new();
    let mut k: usize = 0;
    while k < vyber.len()
        invariant
            k <= vyber@.len(),
            w == retezce(vyber@),
            retezce(nove@) == vyber_voleb(w.take(k as int)),
        decreases vyber@.len() - k,
    {
        proof {
            assert(w.take(k + 1).drop_last() =~= w.take(k as int));
            assert(w.take(k + 1).last() == vyber@[k as int]@);
        }
        let x = &vyber[k];
        if crate::text::znaky(x.as_str()).len() > 0 && !crate::rok::obsahuje(&nove, x.as_str()) {
            let ghost n0 = nove@;
            nove.push(x.clone());
            proof {
                assert(retezce(nove@) =~= retezce(n0).push(x@));
            }
        }
        k = k + 1;
    }
    proof {
        assert(w.take(vyber@.len() as int) =~= w);
    }
    let r = nove.len();
    let ghost puv = crate::rok::volby_v_menu(*s, menu_id@);
    let stejne = match s.volby.get(menu_id) {
        Some(p) => stejne_retezce(p, &nove),
        None => r == 0,
    };
    if !stejne {
        if r == 0 {
            s.volby.remove(menu_id);
            proof {
                assert(crate::rok::volby_map(s.volby) =~= crate::rok::volby_map(old(s).volby).remove(menu_id@));
            }
        } else {
            let ghost nv = retezce(nove@);
            s.volby.insert(menu_id.to_string(), nove);
            proof {
                assert(crate::rok::volby_map(s.volby) =~= crate::rok::volby_map(old(s).volby).insert(menu_id@, nv));
            }
        }
    }
    r
}

/// Dokončí přechod na nový rok: dosavadní rok uloží do historie, novým ho nahradí, piny
/// vymaže a rozvrh zahodí.
pub fn dokonci_rok(p: &mut crate::data::Projekt, novy: SkolniRok)
    ensures
        final(p).rok == novy,
        final(p).historie@ == old(p).historie@.push(old(p).rok),
        final(p).piny.dobre(),
        final(p).piny.mapa() == Map::<Seq<char>, u8>::empty(),
        final(p).rozvrh.is_none(),
        final(p).skola == old(p).skola,
{
    let mut stary = novy;
    std::mem::swap(&mut p.rok, &mut stary);
    p.historie.push(stary);
    p.piny = Mapa::new();
    p.rozvrh = None;
}

/// Vstup rozdělení 15:15: jména a pohlaví nových žáků.
pub open spec fn vstup_1515(z: Seq<crate::rok::NovyZak>) -> Seq<(String, Pohlavi)> {
    z.map_values(|x: crate::rok::NovyZak| (x.jmeno, x.pohlavi))
}

/// Přerozdělí nové žáky do skupin AJa/AJb 15:15 (viz `rozdel_1515`); jména a pohlaví zůstanou.
pub fn prerozdel_1515(zaci: &mut Vec<crate::rok::NovyZak>)
    ensures
        final(zaci)@.len() == old(zaci)@.len(),
        forall|i: int|
            0 <= i < final(zaci)@.len() ==> (#[trigger] final(zaci)@[i]).jmeno == old(zaci)@[i].jmeno
                && final(zaci)@[i].pohlavi == old(zaci)@[i].pohlavi,
        exists|perm: Seq<usize>|
            crate::rok::je_poradi_1515(vstup_1515(old(zaci)@), perm) && forall|k: int|
                0 <= k < perm.len() ==> final(zaci)@[#[trigger] perm[k] as int].skupina == crate::rok::skupina_na_pozici(k),
{
    let mut vstup: Vec<(String, Pohlavi)> = Vec::new();
    let mut i: usize = 0;
    while i < zaci.len()
        invariant
            i <= zaci@.len(),
            vstup@ == vstup_1515(zaci@).take(i as int),
        decreases zaci@.len() - i,
    {
        vstup.push((zaci[i].jmeno.clone(), zaci[i].pohlavi));
        i = i + 1;
        proof {
            assert(vstup@ =~= vstup_1515(zaci@).take(i as int));
        }
    }
    proof {
        assert(vstup@ =~= vstup_1515(zaci@));
    }
    let g = crate::rok::rozdel_1515(vstup.as_slice());
    let ghost z0 = zaci@;
    let mut i: usize = 0;
    while i < zaci.len()
        invariant
            i <= zaci@.len(),
            g@.len() == zaci@.len(),
            zaci@.len() == z0.len(),
            forall|j: int| 0 <= j < zaci@.len() ==> (#[trigger] zaci@[j]).jmeno == z0[j].jmeno && zaci@[j].pohlavi == z0[j].pohlavi,
            forall|j: int| 0 <= j < i ==> (#[trigger] zaci@[j]).skupina == g@[j],
        decreases zaci@.len() - i,
    {
        let mut z = zaci.remove(i);
        z.skupina = g[i];
        zaci.insert(i, z);
        proof {
            assert forall|j: int| 0 <= j < zaci@.len() implies (#[trigger] zaci@[j]).jmeno == z0[j].jmeno && zaci@[j].pohlavi == z0[j].pohlavi by {
            }
        }
        i = i + 1;
    }
}

/// Přidání žáka do menší skupiny AJ jeho třídy udrží skupiny třídy vyrovnané: lišily-li se
/// nejvýše o jednoho žáka, liší se tak i potom.
pub proof fn lemma_pridani_vyrovnava(st: Seq<Student>, s: Student)
    requires
        s.skupina_aj == skupina_noveho(st, s.trida@),
    ensures
        ({
            let a = pocet(st, ve_skupine(s.trida@, SkupinaAj::A)) as int;
            let b = pocet(st, ve_skupine(s.trida@, SkupinaAj::B)) as int;
            let a2 = pocet(st.push(s), ve_skupine(s.trida@, SkupinaAj::A)) as int;
            let b2 = pocet(st.push(s), ve_skupine(s.trida@, SkupinaAj::B)) as int;
            &&& a2 + b2 == a + b + 1
            &&& (-1 <= a - b <= 1 ==> -1 <= a2 - b2 <= 1)
        }),
{
    assert(st.push(s).drop_last() =~= st);
}

/// Přehled nových žáků: počet, z toho dívek a žáků skupiny AJa.
pub fn souhrn_novych(zaci: &Vec<crate::rok::NovyZak>) -> (r: (usize, usize, usize))
    ensures
        r.0 == zaci@.len(),
        r.1 == pocet(zaci@, |z: crate::rok::NovyZak| z.pohlavi == Pohlavi::D),
        r.2 == pocet(zaci@, |z: crate::rok::NovyZak| z.skupina == SkupinaAj::A),
{
    let ghost pd = |z: crate::rok::NovyZak| z.pohlavi == Pohlavi::D;
    let ghost pa = |z: crate::rok::NovyZak| z.skupina == SkupinaAj::A;
    let mut d: usize = 0;
    let mut a: usize = 0;
    let mut k: usize = 0;
    while k < zaci.len()
        invariant
            k <= zaci@.len(),
            pd == (|z: crate::rok::NovyZak| z.pohlavi == Pohlavi::D),
            pa == (|z: crate::rok::NovyZak| z.skupina == SkupinaAj::A),
            d == pocet(zaci@.take(k as int), pd),
            a == pocet(zaci@.take(k as int), pa),
            d <= k && a <= k,
        decreases zaci@.len() - k,
    {
        proof {
            lemma_pocet_krok(zaci@, pd, k as int);
            lemma_pocet_krok(zaci@, pa, k as int);
        }
        if zaci[k].pohlavi == Pohlavi::D {
            d = d + 1;
        }
        if zaci[k].skupina == SkupinaAj::A {
            a = a + 1;
        }
        k = k + 1;
    }
    proof {
        assert(zaci@.take(zaci@.len() as int) =~= zaci@);
    }
    (zaci.len(), d, a)
}

} // verus!
