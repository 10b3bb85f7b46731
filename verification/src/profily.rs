//! Odvozená data pro profily učitelů a předmětů: kdo co učí, ve kterých třídách a kolik
//! hodin. Vše se počítá z učebního plánu a katalogů voleb.

use crate::data::{retezce, Menu, PlanovaHodina, Skola, SkolniRok, Struktura, Trida};
use crate::rok::{celkem_voleb, obsazenost, obsazeno, volby_platne};
use crate::text::rovno;
use vstd::prelude::*;

verus! {

/// Jedna položka výuky: učitel × předmět × třída/skupina.
#[derive(Clone, Debug)]
pub struct Vyuka {
    pub ucitel: String,
    pub predmet: String,
    /// Třídy (u plánu jedna, u volitelných všechny třídy menu).
    pub tridy: Vec<String>,
    /// Skupina: "", "AJa", "D", "L", "AJa L" … nebo název volby.
    pub skupina: String,
    /// Půlhodin týdně (hodina lichého nebo sudého týdne = 1 půlhodina).
    pub pulhodin: u32,
    /// Název menu, jde-li o volitelný předmět.
    pub menu: Option<String>,
    /// Počet zapsaných žáků (jen u voleb).
    pub zaku: Option<usize>,
}

pub struct VyukaV {
    pub ucitel: Seq<char>,
    pub predmet: Seq<char>,
    pub tridy: Seq<Seq<char>>,
    pub skupina: Seq<char>,
    pub pulhodin: u32,
    pub menu: Option<Seq<char>>,
    pub zaku: Option<usize>,
}

impl View for Vyuka {
    type V = VyukaV;

    open spec fn view(&self) -> VyukaV {
        VyukaV {
            ucitel: self.ucitel@,
            predmet: self.predmet@,
            tridy: retezce(self.tridy@),
            skupina: self.skupina@,
            pulhodin: self.pulhodin,
            menu: match self.menu {
                Some(m) => Some(m@),
                None => None,
            },
            zaku: self.zaku,
        }
    }
}

/// Položka výuky z plánu (jedna třída, bez menu).
pub open spec fn polozka_planu(ucitel: Seq<char>, predmet: Seq<char>, trida: Seq<char>, skupina: Seq<char>, pulhodin: u32) -> VyukaV {
    VyukaV { ucitel, predmet, tridy: seq![trida], skupina, pulhodin, menu: None, zaku: None }
}

/// Výuka jedné hodiny plánu podle struktury: celá třída, skupiny AJa/AJb, dívky/chlapci,
/// lichý/sudý týden (poloviční dotace, skutečné předměty), ve skupinách lichý/sudý.
pub open spec fn vyuka_radku(h: PlanovaHodina) -> Seq<VyukaV> {
    let t = h.trida@;
    let p = h.predmet@;
    let cela = (2 * h.hodin) as u32;
    let pul = h.hodin as u32;
    match h.struktura {
        Struktura::CelouTridou(u) => seq![polozka_planu(u@, p, t, seq![], cela)],
        Struktura::Rozdeleno { a, b } => seq![
            polozka_planu(a@, p, t, seq!['A', 'J', 'a'], cela),
            polozka_planu(b@, p, t, seq!['A', 'J', 'b'], cela),
        ],
        Struktura::Pohlavi { div, chl } => seq![
            polozka_planu(div@, p, t, seq!['D'], cela),
            polozka_planu(chl@, p, t, seq!['C', 'H'], cela),
        ],
        Struktura::Stridave { l, s } => seq![
            polozka_planu(l.ucitel@, l.predmet@, t, seq!['L'], pul),
            polozka_planu(s.ucitel@, s.predmet@, t, seq!['S'], pul),
        ],
        Struktura::StridaveSkupiny { a, b } => seq![
            polozka_planu(a[0].ucitel@, a[0].predmet@, t, seq!['A', 'J', 'a', ' ', 'L'], pul),
            polozka_planu(a[1].ucitel@, a[1].predmet@, t, seq!['A', 'J', 'a', ' ', 'S'], pul),
            polozka_planu(b[0].ucitel@, b[0].predmet@, t, seq!['A', 'J', 'b', ' ', 'L'], pul),
            polozka_planu(b[1].ucitel@, b[1].predmet@, t, seq!['A', 'J', 'b', ' ', 'S'], pul),
        ],
    }
}

/// Výuka celého plánu v pořadí hodin.
pub open spec fn vyuka_planu(plan: Seq<PlanovaHodina>) -> Seq<VyukaV>
    decreases plan.len(),
{
    if plan.len() == 0 {
        Seq::empty()
    } else {
        vyuka_planu(plan.drop_last()) + vyuka_radku(plan.last())
    }
}

/// Výuka voleb jednoho menu (dotace menu, počet zapsaných žáků).
pub open spec fn vyuka_menu(st: Seq<crate::data::Student>, m: Menu) -> Seq<VyukaV> {
    m.volby@.map_values(
        |v: crate::data::Volba|
            VyukaV {
                ucitel: v.ucitel@,
                predmet: v.predmet@,
                tridy: retezce(m.tridy@),
                skupina: v.nazev@,
                pulhodin: (2 * m.hodin_tydne) as u32,
                menu: Some(m.nazev@),
                zaku: Some(obsazeno(st, m, v.id@) as usize),
            },
    )
}

/// Výuka všech menu v pořadí.
pub open spec fn vyuka_vsech_menu(st: Seq<crate::data::Student>, menu: Seq<Menu>) -> Seq<VyukaV>
    decreases menu.len(),
{
    if menu.len() == 0 {
        Seq::empty()
    } else {
        vyuka_vsech_menu(st, menu.drop_last()) + vyuka_menu(st, menu.last())
    }
}

/// Pohled na seznam položek výuky.
pub open spec fn vyuka_v(v: Seq<Vyuka>) -> Seq<VyukaV> {
    v.map_values(|x: Vyuka| x@)
}

fn kopie(v: &Vec<String>) -> (r: Vec<String>)
    ensures
        r@ == v@,
{
    crate::data::kopie_retezcu(v)
}

fn pridej(out: &mut Vec<Vyuka>, ucitel: &String, predmet: &String, trida: &String, skupina: &str, pulhodin: u32)
    ensures
        vyuka_v(final(out)@) == vyuka_v(old(out)@).push(polozka_planu(ucitel@, predmet@, trida@, skupina@, pulhodin)),
{
    let mut tridy: Vec<String> = Vec::new();
    tridy.push(trida.clone());
    let x = Vyuka {
        ucitel: ucitel.clone(),
        predmet: predmet.clone(),
        tridy,
        skupina: skupina.to_owned(),
        pulhodin,
        menu: None,
        zaku: None,
    };
    let ghost o = out@;
    out.push(x);
    proof {
        assert(retezce(x.tridy@) =~= seq![trida@]);
        assert(vyuka_v(out@) =~= vyuka_v(o).push(x@));
    }
}

/// Výuka jedné hodiny plánu.
fn vyuka_hodiny(out: &mut Vec<Vyuka>, h: &PlanovaHodina)
    ensures
        vyuka_v(final(out)@) == vyuka_v(old(out)@) + vyuka_radku(*h),
{
    let cela: u32 = 2 * (h.hodin as u32);
    let pul: u32 = h.hodin as u32;
    let ghost o = vyuka_v(out@);
    proof {
        reveal_strlit("");
        reveal_strlit("AJa");
        reveal_strlit("AJb");
        reveal_strlit("D");
        reveal_strlit("CH");
        reveal_strlit("L");
        reveal_strlit("S");
        reveal_strlit("AJa L");
        reveal_strlit("AJa S");
        reveal_strlit("AJb L");
        reveal_strlit("AJb S");
        assert(""@ =~= Seq::<char>::empty());
        assert("AJa"@ =~= seq!['A', 'J', 'a']);
        assert("AJb"@ =~= seq!['A', 'J', 'b']);
        assert("D"@ =~= seq!['D']);
        assert("CH"@ =~= seq!['C', 'H']);
        assert("L"@ =~= seq!['L']);
        assert("S"@ =~= seq!['S']);
        assert("AJa L"@ =~= seq!['A', 'J', 'a', ' ', 'L']);
        assert("AJa S"@ =~= seq!['A', 'J', 'a', ' ', 'S']);
        assert("AJb L"@ =~= seq!['A', 'J', 'b', ' ', 'L']);
        assert("AJb S"@ =~= seq!['A', 'J', 'b', ' ', 'S']);
    }
    match &h.struktura {
        Struktura::CelouTridou(u) => {
            pridej(out, u, &h.predmet, &h.trida, "", cela);
            proof {
                assert(vyuka_v(out@) =~= o + vyuka_radku(*h));
            }
        },
        Struktura::Rozdeleno { a, b } => {
            pridej(out, a, &h.predmet, &h.trida, "AJa", cela);
            pridej(out, b, &h.predmet, &h.trida, "AJb", cela);
            proof {
                assert(vyuka_v(out@) =~= o + vyuka_radku(*h));
            }
        },
        Struktura::Pohlavi { div, chl } => {
            pridej(out, div, &h.predmet, &h.trida, "D", cela);
            pridej(out, chl, &h.predmet, &h.trida, "CH", cela);
            proof {
                assert(vyuka_v(out@) =~= o + vyuka_radku(*h));
            }
        },
        Struktura::Stridave { l, s } => {
            pridej(out, &l.ucitel, &l.predmet, &h.trida, "L", pul);
            pridej(out, &s.ucitel, &s.predmet, &h.trida, "S", pul);
            proof {
                assert(vyuka_v(out@) =~= o + vyuka_radku(*h));
            }
        },
        Struktura::StridaveSkupiny { a, b } => {
            pridej(out, &a[0].ucitel, &a[0].predmet, &h.trida, "AJa L", pul);
            pridej(out, &a[1].ucitel, &a[1].predmet, &h.trida, "AJa S", pul);
            pridej(out, &b[0].ucitel, &b[0].predmet, &h.trida, "AJb L", pul);
            pridej(out, &b[1].ucitel, &b[1].predmet, &h.trida, "AJb S", pul);
            proof {
                assert(vyuka_v(out@) =~= o + vyuka_radku(*h));
            }
        },
    }
}

/// Všechna výuka školy: nejdřív z učebního plánu (v pořadí hodin plánu), pak z menu
/// voleb (v pořadí menu a voleb, s počtem zapsaných žáků).
pub fn vyuka(skola: &Skola, rok: &SkolniRok) -> (out: Vec<Vyuka>)
    requires
        volby_platne(rok.studenti@),
        forall|q: int| 0 <= q < rok.menu@.len() ==> celkem_voleb(rok.studenti@, (#[trigger] rok.menu@[q]).id@) < usize::MAX,
    ensures
        vyuka_v(out@) == vyuka_planu(skola.plan@) + vyuka_vsech_menu(rok.studenti@, rok.menu@),
{
    let mut out: Vec<Vyuka> = Vec::new();
    let mut i: usize = 0;
    while i < skola.plan.len()
        invariant
            i <= skola.plan@.len(),
            vyuka_v(out@) == vyuka_planu(skola.plan@.take(i as int)),
        decreases skola.plan@.len() - i,
    {
        proof {
            assert(skola.plan@.take(i + 1).drop_last() =~= skola.plan@.take(i as int));
        }
        vyuka_hodiny(&mut out, &skola.plan[i]);
        i = i + 1;
    }
    proof {
        assert(skola.plan@.take(skola.plan@.len() as int) =~= skola.plan@);
        assert(vyuka_v(out@) =~= vyuka_planu(skola.plan@) + vyuka_vsech_menu(rok.studenti@, rok.menu@.take(0)));
    }
    let ghost zaklad = vyuka_planu(skola.plan@);
    let mut q: usize = 0;
    while q < rok.menu.len()
        invariant
            q <= rok.menu@.len(),
            volby_platne(rok.studenti@),
            forall|q2: int| 0 <= q2 < rok.menu@.len() ==> celkem_voleb(rok.studenti@, (#[trigger] rok.menu@[q2]).id@) < usize::MAX,
            vyuka_v(out@) == zaklad + vyuka_vsech_menu(rok.studenti@, rok.menu@.take(q as int)),
        decreases rok.menu@.len() - q,
    {
        let m = &rok.menu[q];
        let obs = obsazenost(rok, m);
        let ghost o = vyuka_v(out@);
        let mut j: usize = 0;
        while j < m.volby.len()
            invariant
                j <= m.volby@.len(),
                obs.dobre(),
                forall|k: Seq<char>|
                    #![trigger obs.ma(k)]
                    obs.ma(k) <==> exists|j2: int| 0 <= j2 < m.volby@.len() && (#[trigger] m.volby@[j2]).id@ == k,
                forall|k: Seq<char>| obs.ma(k) ==> obs.hodnota(k) == obsazeno(rok.studenti@, *m, k),
                vyuka_v(out@) == o + vyuka_menu(rok.studenti@, *m).take(j as int),
            decreases m.volby@.len() - j,
        {
            let v = &m.volby[j];
            assert(obs.ma(v.id@));
            let zaku = match obs.get(v.id.as_str()) {
                Some(c) => Some(*c),
                None => None,
            };
            let x = Vyuka {
                ucitel: v.ucitel.clone(),
                predmet: v.predmet.clone(),
                tridy: kopie(&m.tridy),
                skupina: v.nazev.clone(),
                pulhodin: 2 * (m.hodin_tydne as u32),
                menu: Some(m.nazev.clone()),
                zaku,
            };
            let ghost o2 = out@;
            out.push(x);
            proof {
                assert(vyuka_v(out@) =~= vyuka_v(o2).push(x@));
                assert(vyuka_menu(rok.studenti@, *m).take(j + 1) =~= vyuka_menu(rok.studenti@, *m).take(j as int).push(
                    x@,
                ));
            }
            j = j + 1;
        }
        proof {
            assert(vyuka_menu(rok.studenti@, *m).take(m.volby@.len() as int) =~= vyuka_menu(rok.studenti@, *m));
            assert(rok.menu@.take(q + 1).drop_last() =~= rok.menu@.take(q as int));
            assert(rok.menu@.take(q + 1).last() == *m);
        }
        q = q + 1;
    }
    proof {
        assert(rok.menu@.take(rok.menu@.len() as int) =~= rok.menu@);
    }
    out
}

/// Vlastnost „třída má id `t`“.
pub open spec fn ma_id(t: Seq<char>) -> spec_fn(Trida) -> bool {
    |x: Trida| x.id@ == t
}

/// Řadicí klíč třídy: pořadí v číselníku, neznámé třídy na konec.
pub open spec fn klic_tridy(tridy: Seq<Trida>, t: Seq<char>) -> int {
    let i = crate::hledani::prvni(tridy, ma_id(t));
    if i >= 0 {
        i
    } else {
        usize::MAX as int
    }
}

/// Všechny třídy položek výuky za sebou.
pub open spec fn tridy_polozek(v: Seq<Vyuka>) -> Seq<Seq<char>>
    decreases v.len(),
{
    if v.len() == 0 {
        Seq::empty()
    } else {
        tridy_polozek(v.drop_last()) + retezce(v.last().tridy@)
    }
}

pub(crate) fn klic_exec(tridy: &Vec<Trida>, t: &str) -> (r: usize)
    ensures
        r == klic_tridy(tridy@, t@),
{
    let ghost p = ma_id(t@);
    let mut i: usize = 0;
    while i < tridy.len()
        invariant
            i <= tridy@.len(),
            p == ma_id(t@),
            forall|j: int| 0 <= j < i ==> !p(#[trigger] tridy@[j]),
        decreases tridy@.len() - i,
    {
        if rovno(tridy[i].id.as_str(), t) {
            proof {
                crate::hledani::lemma_prvni_je(tridy@, p, i as int);
            }
            return i;
        }
        i = i + 1;
    }
    proof {
        crate::hledani::lemma_prvni_zadny(tridy@, p);
    }
    usize::MAX
}

/// Třídy položek výuky v pořadí číselníku (neznámé na konci), bez opakování sousedů:
/// obsahuje právě třídy položek, klíče nerostou dolů, a třídy z číselníku se neopakují.
pub fn tridy_vyuky(tridy: &Vec<Trida>, polozky: &Vec<Vyuka>) -> (r: Vec<String>)
    ensures
        forall|x: Seq<char>| retezce(r@).contains(x) <==> tridy_polozek(polozky@).contains(x),
        forall|p: int, q: int|
            0 <= p < q < r@.len() ==> klic_tridy(tridy@, (#[trigger] r@[p])@) <= klic_tridy(tridy@, (#[trigger] r@[q])@),
        forall|p: int| 0 <= p < r@.len() - 1 ==> (#[trigger] r@[p])@ != r@[p + 1]@,
        forall|p: int, q: int|
            0 <= p < q < r@.len() && klic_tridy(tridy@, (#[trigger] r@[p])@) < usize::MAX ==> r@[p]@ != (#[trigger] r@[q])@,
{
    // Všechny třídy s klíči.
    let mut vse: Vec<(usize, String)> = Vec::new();
    let mut i: usize = 0;
    while i < polozky.len()
        invariant
            i <= polozky@.len(),
            vse@.map_values(|x: (usize, String)| x.1@) == tridy_polozek(polozky@.take(i as int)),
            forall|k: int| 0 <= k < vse@.len() ==> (#[trigger] vse@[k]).0 == klic_tridy(tridy@, vse@[k].1@),
        decreases polozky@.len() - i,
    {
        proof {
            assert(polozky@.take(i + 1).drop_last() =~= polozky@.take(i as int));
        }
        let ghost v0 = vse@;
        let tr = &polozky[i].tridy;
        let mut j: usize = 0;
        while j < tr.len()
            invariant
                j <= tr@.len(),
                i < polozky@.len(),
                *tr == polozky@[i as int].tridy,
                vse@.map_values(|x: (usize, String)| x.1@) == v0.map_values(|x: (usize, String)| x.1@) + retezce(tr@).take(j as int),
                forall|k: int| 0 <= k < vse@.len() ==> (#[trigger] vse@[k]).0 == klic_tridy(tridy@, vse@[k].1@),
            decreases tr@.len() - j,
        {
            let ghost v1 = vse@;
            let k = klic_exec(tridy, tr[j].as_str());
            vse.push((k, tr[j].clone()));
            proof {
                assert(vse@.map_values(|x: (usize, String)| x.1@) =~= v1.map_values(|x: (usize, String)| x.1@).push(tr@[j as int]@));
                assert(retezce(tr@).take(j + 1) =~= retezce(tr@).take(j as int).push(tr@[j as int]@));
            }
            j = j + 1;
        }
        proof {
            assert(retezce(tr@).take(tr@.len() as int) =~= retezce(tr@));
        }
        i = i + 1;
    }
    proof {
        assert(polozky@.take(polozky@.len() as int) =~= polozky@);
    }
    let ghost flat = tridy_polozek(polozky@);
    proof {
        assert forall|x: Seq<char>| (exists|k: int| 0 <= k < vse@.len() && (#[trigger] vse@[k]).1@ == x) <==> flat.contains(x) by {
            let fv = vse@.map_values(|y: (usize, String)| y.1@);
            if exists|k: int| 0 <= k < vse@.len() && (#[trigger] vse@[k]).1@ == x {
                let k = choose|k: int| 0 <= k < vse@.len() && (#[trigger] vse@[k]).1@ == x;
                assert(fv[k] == x);
            }
            if flat.contains(x) {
                let k = choose|k: int| 0 <= k < flat.len() && flat[k] == x;
                assert(fv[k] == x);
            }
        }
    }
    // Stabilní řazení podle klíče (výběrem prvního nejmenšího).
    let mut zbyva = vse;
    let mut ser: Vec<(usize, String)> = Vec::new();
    while zbyva.len() > 0
        invariant
            forall|x: Seq<char>|
                (exists|k: int| 0 <= k < ser@.len() && (#[trigger] ser@[k]).1@ == x) || (exists|k: int|
                    0 <= k < zbyva@.len() && (#[trigger] zbyva@[k]).1@ == x) <==> flat.contains(x),
            forall|k: int| 0 <= k < ser@.len() ==> (#[trigger] ser@[k]).0 == klic_tridy(tridy@, ser@[k].1@),
            forall|k: int| 0 <= k < zbyva@.len() ==> (#[trigger] zbyva@[k]).0 == klic_tridy(tridy@, zbyva@[k].1@),
            forall|p: int, q: int| 0 <= p < q < ser@.len() ==> (#[trigger] ser@[p]).0 <= (#[trigger] ser@[q]).0,
            forall|p: int, q: int| 0 <= p < ser@.len() && 0 <= q < zbyva@.len() ==> (#[trigger] ser@[p]).0 <= (#[trigger] zbyva@[q]).0,
        decreases zbyva@.len(),
    {
        let mut nej: usize = 0;
        let mut i: usize = 1;
        while i < zbyva.len()
            invariant
                1 <= i <= zbyva@.len(),
                nej < zbyva@.len(),
                forall|k: int| 0 <= k < i ==> zbyva@[nej as int].0 <= (#[trigger] zbyva@[k]).0,
            decreases zbyva@.len() - i,
        {
            if zbyva[i].0 < zbyva[nej].0 {
                nej = i;
            }
            i = i + 1;
        }
        let ghost z0 = zbyva@;
        let ghost s0 = ser@;
        let m = zbyva.remove(nej);
        ser.push(m);
        proof {
            assert(ser@ == s0.push(m));
            assert forall|k: int| 0 <= k < zbyva@.len() implies #[trigger] zbyva@[k] == (if k < nej {
                z0[k]
            } else {
                z0[k + 1]
            }) by {}
            assert forall|p: int, q: int| 0 <= p < ser@.len() && 0 <= q < zbyva@.len() implies (#[trigger] ser@[p]).0 <= (
            #[trigger] zbyva@[q]).0 by {
                let qq = if q < nej { q } else { q + 1 };
                if p < s0.len() {
                    assert(s0[p].0 <= z0[qq].0);
                } else {
                    assert(z0[nej as int].0 <= z0[qq].0);
                }
            }
            assert forall|p: int, q: int| 0 <= p < q < ser@.len() implies (#[trigger] ser@[p]).0 <= (#[trigger] ser@[q]).0 by {
                if q < s0.len() {
                    assert(s0[p].0 <= s0[q].0);
                } else {
                    assert(s0[p].0 <= z0[nej as int].0);
                }
            }
            assert forall|k: int| 0 <= k < zbyva@.len() implies (#[trigger] zbyva@[k]).0 == klic_tridy(tridy@, zbyva@[k].1@) by {
                let kk = if k < nej { k } else { k + 1 };
                assert(z0[kk].0 == klic_tridy(tridy@, z0[kk].1@));
            }
            assert forall|x: Seq<char>|
                (exists|k: int| 0 <= k < ser@.len() && (#[trigger] ser@[k]).1@ == x) || (exists|k: int|
                    0 <= k < zbyva@.len() && (#[trigger] zbyva@[k]).1@ == x) <==> flat.contains(x) by {
                if exists|k: int| 0 <= k < ser@.len() && (#[trigger] ser@[k]).1@ == x {
                    let k = choose|k: int| 0 <= k < ser@.len() && (#[trigger] ser@[k]).1@ == x;
                    if k < s0.len() {
                        assert(s0[k].1@ == x);
                    } else {
                        assert(z0[nej as int].1@ == x);
                    }
                }
                if exists|k: int| 0 <= k < zbyva@.len() && (#[trigger] zbyva@[k]).1@ == x {
                    let k = choose|k: int| 0 <= k < zbyva@.len() && (#[trigger] zbyva@[k]).1@ == x;
                    let kk = if k < nej { k } else { k + 1 };
                    assert(z0[kk].1@ == x);
                }
                if flat.contains(x) {
                    if exists|k: int| 0 <= k < s0.len() && (#[trigger] s0[k]).1@ == x {
                        let k = choose|k: int| 0 <= k < s0.len() && (#[trigger] s0[k]).1@ == x;
                        assert(ser@[k] == s0[k]);
                    } else {
                        let k = choose|k: int| 0 <= k < z0.len() && (#[trigger] z0[k]).1@ == x;
                        if k == nej {
                            assert(ser@[s0.len() as int] == z0[k]);
                        } else if k < nej {
                            assert(zbyva@[k] == z0[k]);
                        } else {
                            assert(zbyva@[k - 1] == z0[k]);
                        }
                    }
                }
            }
        }
    }
    proof {
        assert forall|x: Seq<char>| (exists|k: int| 0 <= k < ser@.len() && (#[trigger] ser@[k]).1@ == x) <==> flat.contains(x) by {
            if exists|k: int| 0 <= k < zbyva@.len() && (#[trigger] zbyva@[k]).1@ == x {
                let k = choose|k: int| 0 <= k < zbyva@.len() && (#[trigger] zbyva@[k]).1@ == x;
            }
        }
    }
    // Bez opakování sousedů.
    let mut r: Vec<String> = Vec::new();
    let ghost kl = Seq::new(ser@.len(), |k: int| ser@[k].0 as int);
    let mut k: usize = 0;
    while k < ser.len()
        invariant
            k <= ser@.len(),
            forall|x: Seq<char>|
                retezce(r@).contains(x) <==> exists|k2: int| 0 <= k2 < k && (#[trigger] ser@[k2]).1@ == x,
            forall|k2: int| 0 <= k2 < ser@.len() ==> (#[trigger] ser@[k2]).0 == klic_tridy(tridy@, ser@[k2].1@),
            forall|p: int, q: int| 0 <= p < q < ser@.len() ==> (#[trigger] ser@[p]).0 <= (#[trigger] ser@[q]).0,
            forall|p: int, q: int|
                0 <= p < q < r@.len() ==> klic_tridy(tridy@, (#[trigger] r@[p])@) <= klic_tridy(tridy@, (#[trigger] r@[q])@),
            forall|p: int| 0 <= p < r@.len() - 1 ==> (#[trigger] r@[p])@ != r@[p + 1]@,
            r@.len() > 0 ==> k > 0 && r@[r@.len() - 1]@ == ser@[k - 1].1@,
            forall|p: int| 0 <= p < r@.len() ==> exists|k2: int| 0 <= k2 < k && (#[trigger] ser@[k2]).1@ == (#[trigger] r@[p])@,
            k > 0 ==> r@.len() > 0,
        decreases ser@.len() - k,
    {
        let ghost r0 = r@;
        let novy = r.len() == 0 || !rovno(r[r.len() - 1].as_str(), ser[k].1.as_str());
        if novy {
            r.push(ser[k].1.clone());
        }
        proof {
            assert forall|x: Seq<char>|
                retezce(r@).contains(x) <==> exists|k2: int| 0 <= k2 < k + 1 && (#[trigger] ser@[k2]).1@ == x by {
                if novy {
                    assert(retezce(r@) =~= retezce(r0).push(ser@[k as int].1@));
                    crate::hledani::lemma_contains_push(retezce(r0), ser@[k as int].1@, x);
                }
                if exists|k2: int| 0 <= k2 < k + 1 && (#[trigger] ser@[k2]).1@ == x {
                    let k2 = choose|k2: int| 0 <= k2 < k + 1 && (#[trigger] ser@[k2]).1@ == x;
                    if k2 == k && !novy {
                        assert(retezce(r@)[r@.len() - 1] == x);
                    }
                }
            }
            assert forall|p: int| 0 <= p < r@.len() implies exists|k2: int| 0 <= k2 < k + 1 && (#[trigger] ser@[k2]).1@ == (
            #[trigger] r@[p])@ by {
                if p < r0.len() {
                    let k2 = choose|k2: int| 0 <= k2 < k && (#[trigger] ser@[k2]).1@ == r0[p]@;
                    assert(ser@[k2].1@ == r@[p]@);
                } else {
                    assert(ser@[k as int].1@ == r@[p]@);
                }
            }
            if novy && r0.len() > 0 {
                assert forall|p: int, q: int|
                    0 <= p < q < r@.len() implies klic_tridy(tridy@, (#[trigger] r@[p])@) <= klic_tridy(
                    tridy@,
                    (#[trigger] r@[q])@,
                ) by {
                    if q == r0.len() {
                        let k2 = choose|k2: int| 0 <= k2 < k && (#[trigger] ser@[k2]).1@ == r0[p]@;
                        assert(ser@[k2].0 <= ser@[k as int].0);
                    } else {
                        assert(klic_tridy(tridy@, r0[p]@) <= klic_tridy(tridy@, r0[q]@));
                    }
                }
            }
        }
        k = k + 1;
    }
    proof {
        assert forall|x: Seq<char>| retezce(r@).contains(x) <==> tridy_polozek(polozky@).contains(x) by {
            assert(retezce(r@).contains(x) <==> exists|k2: int| 0 <= k2 < ser@.len() && (#[trigger] ser@[k2]).1@ == x);
            if flat.contains(x) {
                assert(exists|k2: int| 0 <= k2 < ser@.len() && (#[trigger] ser@[k2]).1@ == x);
            }
        }
        assert forall|p: int, q: int|
            0 <= p < q < r@.len() && klic_tridy(tridy@, (#[trigger] r@[p])@) < usize::MAX implies r@[p]@ != (
            #[trigger] r@[q])@ by {
            lemma_stejny_klic(tridy@, r@, p, q);
        }
    }
    r
}

/// Ve posloupnosti seřazené podle klíče bez opakování sousedů se třída z číselníku
/// nemůže opakovat.
proof fn lemma_stejny_klic(tridy: Seq<Trida>, r: Seq<String>, p: int, q: int)
    requires
        0 <= p < q < r.len(),
        klic_tridy(tridy, r[p]@) < usize::MAX,
        forall|a: int, b: int| 0 <= a < b < r.len() ==> klic_tridy(tridy, (#[trigger] r[a])@) <= klic_tridy(tridy, (#[trigger] r[b])@),
        forall|a: int| 0 <= a < r.len() - 1 ==> (#[trigger] r[a])@ != r[a + 1]@,
    ensures
        r[p]@ != r[q]@,
{
    if r[p]@ == r[q]@ {
        lemma_stejny_klic_spor(tridy, r, p, q);
    }
}

proof fn lemma_stejny_klic_spor(tridy: Seq<Trida>, r: Seq<String>, p: int, q: int)
    requires
        0 <= p < q < r.len(),
        r[p]@ == r[q]@,
        klic_tridy(tridy, r[p]@) < usize::MAX,
        forall|a: int, b: int| 0 <= a < b < r.len() ==> klic_tridy(tridy, (#[trigger] r[a])@) <= klic_tridy(tridy, (#[trigger] r[b])@),
        forall|a: int| 0 <= a < r.len() - 1 ==> (#[trigger] r[a])@ != r[a + 1]@,
    ensures
        r[p + 1]@ == r[p]@,
{
    let c = klic_tridy(tridy, r[p]@);
    crate::hledani::lemma_prvni(tridy, ma_id(r[p]@));
    crate::hledani::lemma_prvni(tridy, ma_id(r[p + 1]@));
    assert(klic_tridy(tridy, r[p]@) <= klic_tridy(tridy, r[p + 1]@));
    assert(klic_tridy(tridy, r[p + 1]@) <= klic_tridy(tridy, r[q]@));
    assert(klic_tridy(tridy, r[p + 1]@) == c);
    assert(tridy[c].id@ == r[p]@);
    assert(tridy[c].id@ == r[p + 1]@);
}

} // verus!
