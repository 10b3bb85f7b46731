//! Rozdělení volby na dvě skupiny: druhá polovina žáků (abecedně) přejde do nové volby
//! se stejným předmětem a zadaným učitelem.

use crate::data::{retezce, Menu, MenuV, SkolniRok, Student, StudentV, Volba, VolbaV};
use crate::doplneni::jen_volby;
use crate::rok::{ids_voleb, index_menu, je_volba, najdi_menu, obsahuje, pocet_v, volby_map, volby_platne, volby_v_menu, zapsan};
use crate::text::{cislice, cislo, desitkove, lex_mensi, porovnej, pridej_znak, pripoj, rovno};
use vstd::prelude::*;
use vstd::relations::injective_on;
use vstd::set_lib::{lemma_int_range, lemma_len_subset, lemma_map_size, set_int_range};

verus! {

/// Id `n`-té skupiny volby `v`: „v-n“.
pub open spec fn kandidat_id(v: Seq<char>, n: nat) -> Seq<char> {
    v + seq!['-'] + desitkove(n)
}

proof fn lemma_desitkove_delka(n: nat)
    ensures
        desitkove(n).len() >= 1,
        n >= 10 ==> desitkove(n).len() >= 2,
    decreases n,
{
    if n >= 10 {
        lemma_desitkove_delka(n / 10);
    }
}

proof fn lemma_cislice_ruzne(a: nat, b: nat)
    requires
        a < 10,
        b < 10,
        cislice(a) == cislice(b),
    ensures
        a == b,
{
    assert(cislice(a) as int == 48 + a);
    assert(cislice(b) as int == 48 + b);
}

/// Desítkový zápis je prostý.
proof fn lemma_desitkove_prosty(a: nat, b: nat)
    requires
        desitkove(a) == desitkove(b),
    ensures
        a == b,
    decreases a,
{
    lemma_desitkove_delka(a);
    lemma_desitkove_delka(b);
    if a < 10 && b < 10 {
        assert(desitkove(a) == seq![cislice(a)]);
        assert(desitkove(b) == seq![cislice(b)]);
        assert(desitkove(a)[0] == desitkove(b)[0]);
        assert(seq![cislice(a)][0] == cislice(a));
        assert(seq![cislice(b)][0] == cislice(b));
        lemma_cislice_ruzne(a, b);
    } else if a >= 10 && b >= 10 {
        let da = desitkove(a);
        let db = desitkove(b);
        assert(da.last() == db.last());
        lemma_cislice_ruzne(a % 10, b % 10);
        assert(da.drop_last() =~= desitkove(a / 10));
        assert(db.drop_last() =~= desitkove(b / 10));
        lemma_desitkove_prosty(a / 10, b / 10);
    } else {
        assert(desitkove(a).len() != desitkove(b).len());
    }
}

/// Mezi `n = 2 … ids.len() + 2` je aspoň jedno id skupiny volné.
proof fn lemma_volne_id(ids: Seq<Seq<char>>, v: Seq<char>)
    ensures
        exists|n: int| 2 <= n < ids.len() + 3 && !ids.contains(#[trigger] kandidat_id(v, n as nat)),
{
    lemma_volne_cislo(ids, v + seq!['-'], 2);
    let n = choose|n: int| 2 <= n < 2 + ids.len() + 1 && !ids.contains(#[trigger] ((v + seq!['-']) + desitkove(n as nat)));
    assert(kandidat_id(v, n as nat) == (v + seq!['-']) + desitkove(n as nat));
}

/// Mezi `ids.len() + 1` po sobě jdoucími čísly od `od` je aspoň jedno, jehož zápis za
/// předponou `p` mezi `ids` není.
pub proof fn lemma_volne_cislo(ids: Seq<Seq<char>>, p: Seq<char>, od: int)
    requires
        od >= 0,
    ensures
        exists|n: int| od <= n < od + ids.len() + 1 && !ids.contains(#[trigger] (p + desitkove(n as nat))),
{
    if forall|n: int| od <= n < od + ids.len() + 1 ==> ids.contains(#[trigger] (p + desitkove(n as nat))) {
        lemma_vsechna_obsazena(ids, p, od);
    }
}

proof fn lemma_vsechna_obsazena(ids: Seq<Seq<char>>, p: Seq<char>, od: int)
    requires
        od >= 0,
        forall|n: int| od <= n < od + ids.len() + 1 ==> ids.contains(#[trigger] (p + desitkove(n as nat))),
    ensures
        ids.len() + 1 <= ids.len(),
{
    broadcast use vstd::seq_lib::seq_to_set_is_finite;

    let x = set_int_range(od, od + ids.len() + 1);
    lemma_int_range(od, od + ids.len() + 1);
    let f = |n: int| p + desitkove(n as nat);
    assert(injective_on(f, x)) by {
        assert forall|a: int, b: int| x.contains(a) && x.contains(b) && #[trigger] f(a) == #[trigger] f(b) implies a
            == b by {
            assert(f(a).skip(p.len() as int) =~= desitkove(a as nat));
            assert(f(b).skip(p.len() as int) =~= desitkove(b as nat));
            lemma_desitkove_prosty(a as nat, b as nat);
        }
    }
    let y = x.map(f);
    lemma_map_size(x, y, f);
    assert(y.subset_of(ids.to_set())) by {
        assert forall|z: Seq<char>| y.contains(z) implies ids.to_set().contains(z) by {
            let a = choose|a: int| x.contains(a) && f(a) == z;
            assert(ids.contains(p + desitkove(a as nat)));
        }
    }
    ids.lemma_cardinality_of_set();
    lemma_len_subset(y, ids.to_set());
}

/// Index první volby s daným id (-1 = není).
pub open spec fn index_volby(v: Seq<Volba>, id: Seq<char>) -> int {
    crate::hledani::prvni(v, |x: Volba| x.id@ == id)
}

pub fn najdi_volbu(v: &Vec<Volba>, id: &str) -> (r: Option<usize>)
    ensures
        match r {
            Some(i) => i as int == index_volby(v@, id@) && i < v@.len() && v@[i as int].id@ == id@,
            None => index_volby(v@, id@) == -1,
        },
{
    let ghost p = |x: Volba| x.id@ == id@;
    let mut i: usize = 0;
    while i < v.len()
        invariant
            i <= v@.len(),
            p == (|x: Volba| x.id@ == id@),
            forall|j: int| 0 <= j < i ==> !p(#[trigger] v@[j]),
        decreases v@.len() - i,
    {
        if rovno(v[i].id.as_str(), id) {
            proof {
                crate::hledani::lemma_prvni_je(v@, p, i as int);
            }
            return Some(i);
        }
        i = i + 1;
    }
    proof {
        crate::hledani::lemma_prvni_zadny(v@, p);
    }
    None
}

/// Žák je ve skupině volby `vid` menu `m`.
pub open spec fn clen(s: Student, m: Menu, vid: Seq<char>) -> bool {
    zapsan(s, m) && volby_v_menu(s, m.id@).contains(vid)
}

/// Žák `a` je abecedně před žákem `b` (při shodě jmen rozhoduje pořadí v seznamu).
pub open spec fn drive(st: Seq<Student>, a: int, b: int) -> bool {
    lex_mensi(st[a].jmeno@, st[b].jmeno@) || (st[a].jmeno@ == st[b].jmeno@ && a < b)
}

/// Počet členů skupiny mezi prvními `n` žáky.
pub open spec fn pocet_clenu(st: Seq<Student>, m: Menu, vid: Seq<char>, n: int) -> nat
    decreases n,
{
    if n <= 0 {
        0
    } else {
        pocet_clenu(st, m, vid, n - 1) + (if clen(st[n - 1], m, vid) {
            1nat
        } else {
            0nat
        })
    }
}

/// Počet členů skupiny mezi prvními `n` žáky, kteří jsou abecedně před žákem `j`.
pub open spec fn pred_clenem(st: Seq<Student>, m: Menu, vid: Seq<char>, j: int, n: int) -> nat
    decreases n,
{
    if n <= 0 {
        0
    } else {
        pred_clenem(st, m, vid, j, n - 1) + (if clen(st[n - 1], m, vid) && drive(st, n - 1, j) {
            1nat
        } else {
            0nat
        })
    }
}

/// Žák přejde do nové skupiny: je členem a v abecedním pořadí členů patří do druhé
/// poloviny.
pub open spec fn presouva_se(st: Seq<Student>, m: Menu, vid: Seq<char>, j: int) -> bool {
    clen(st[j], m, vid) && pred_clenem(st, m, vid, j, st.len() as int) >= pocet_clenu(
        st,
        m,
        vid,
        st.len() as int,
    ) / 2
}

/// Všechny výskyty `a` nahrazené `b`.
pub open spec fn nahrad(v: Seq<Seq<char>>, a: Seq<char>, b: Seq<char>) -> Seq<Seq<char>> {
    v.map_values(|x: Seq<char>| if x == a {
        b
    } else {
        x
    })
}

proof fn lemma_nahrad_pocet(v: Seq<Seq<char>>, a: Seq<char>, b: Seq<char>)
    requires
        a != b,
    ensures
        pocet_v(nahrad(v, a, b), a) + pocet_v(nahrad(v, a, b), b) == pocet_v(v, a) + pocet_v(v, b),
    decreases v.len(),
{
    if v.len() > 0 {
        lemma_nahrad_pocet(v.drop_last(), a, b);
        assert(nahrad(v, a, b).drop_last() =~= nahrad(v.drop_last(), a, b));
    }
}

/// Přesun části žáků z volby `a` do volby `b` nemění součet obsazenosti obou voleb.
pub proof fn lemma_presun_zachova(st0: Seq<Student>, st: Seq<Student>, m: Menu, a: Seq<char>, b: Seq<char>)
    requires
        a != b,
        st.len() == st0.len(),
        forall|j: int|
            0 <= j < st0.len() ==> zapsan(#[trigger] st[j], m) == zapsan(st0[j], m) && (volby_v_menu(st[j], m.id@)
                == volby_v_menu(st0[j], m.id@) || volby_v_menu(st[j], m.id@) == nahrad(
                volby_v_menu(st0[j], m.id@),
                a,
                b,
            )),
    ensures
        crate::rok::obsazeno(st, m, a) + crate::rok::obsazeno(st, m, b) == crate::rok::obsazeno(st0, m, a)
            + crate::rok::obsazeno(st0, m, b),
    decreases st0.len(),
{
    if st0.len() > 0 {
        let n = st0.len() - 1;
        assert(zapsan(st[n], m) == zapsan(st0[n], m));
        assert forall|j: int| 0 <= j < st0.drop_last().len() implies zapsan(#[trigger] st.drop_last()[j], m) == zapsan(
            st0.drop_last()[j],
            m,
        ) && (volby_v_menu(st.drop_last()[j], m.id@) == volby_v_menu(st0.drop_last()[j], m.id@) || volby_v_menu(
            st.drop_last()[j],
            m.id@,
        ) == nahrad(volby_v_menu(st0.drop_last()[j], m.id@), a, b)) by {
            assert(zapsan(st[j], m) == zapsan(st0[j], m));
        }
        lemma_presun_zachova(st0.drop_last(), st.drop_last(), m, a, b);
        lemma_nahrad_pocet(volby_v_menu(st0[n], m.id@), a, b);
    }
}

/// Id `vid-n` jako řetězec.
fn kandidat(vid: &str, n: usize) -> (r: String)
    ensures
        r@ == kandidat_id(vid@, n as nat),
{
    let mut s = vid.to_owned();
    pridej_znak(&mut s, '-');
    let c = cislo(n as u64);
    pripoj(&mut s, c.as_str());
    s
}

/// Je žák členem skupiny volby?
fn je_clen(s: &Student, m: &Menu, vid: &str) -> (r: bool)
    requires
        s.volby.dobre(),
    ensures
        r == clen(*s, *m, vid@),
{
    if s.v_rozvrhu() && obsahuje(&m.tridy, s.trida.as_str()) {
        match s.volby.get(m.id.as_str()) {
            Some(v) => obsahuje(v, vid),
            None => false,
        }
    } else {
        false
    }
}

/// Je žák `a` abecedně před žákem `b`?
fn drive_exec(st: &Vec<Student>, a: usize, b: usize) -> (r: bool)
    requires
        a < st@.len(),
        b < st@.len(),
    ensures
        r == drive(st@, a as int, b as int),
{
    let c = porovnej(st[a].jmeno.as_str(), st[b].jmeno.as_str());
    c < 0 || (c == 0 && a < b)
}

/// Přesune žáka z volby `vid` do volby `nove` (všechny výskyty).
fn presun_zaka(s: &mut Student, mid: &str, vid: &str, nove: &str)
    requires
        old(s).volby.dobre(),
        old(s).volby.ma(mid@),
    ensures
        final(s).volby.dobre(),
        jen_volby(*old(s), *final(s)),
        volby_map(final(s).volby) == volby_map(old(s).volby).insert(mid@, nahrad(volby_v_menu(*old(s), mid@), vid@, nove@)),
{
    let mut l: Vec<String> = Vec::new();
    match s.volby.get(mid) {
        Some(v) => {
            let ghost vv = retezce(v@);
            let mut i: usize = 0;
            while i < v.len()
                invariant
                    i <= v@.len(),
                    vv == retezce(v@),
                    retezce(l@) == nahrad(vv.take(i as int), vid@, nove@),
                decreases v@.len() - i,
            {
                let ghost l0 = l@;
                if rovno(v[i].as_str(), vid) {
                    l.push(nove.to_owned());
                } else {
                    l.push(v[i].clone());
                }
                proof {
                    assert(retezce(l@) =~= retezce(l0).push(l@[i as int]@));
                    assert(nahrad(vv.take(i + 1), vid@, nove@) =~= nahrad(vv.take(i as int), vid@, nove@).push(
                        if vv[i as int] == vid@ {
                            nove@
                        } else {
                            vv[i as int]
                        },
                    ));
                }
                i = i + 1;
            }
            proof {
                assert(vv.take(v@.len() as int) =~= vv);
            }
        },
        None => {},
    }
    let ghost lv = retezce(l@);
    s.volby.insert(mid.to_owned(), l);
    proof {
        assert(volby_map(s.volby) =~= volby_map(old(s).volby).insert(mid@, lv));
        assert(s@ == StudentV { volby: s@.volby, ..old(s)@ });
    }
}

/// Výsledek rozdělení volby `vi` menu `mi` (rok před `r0`, po `r`) do nové skupiny `id`
/// s učitelem `ucitel`:
/// - `id` je „vid-n“ pro nejmenší `n >= 2`, které v menu ještě není; nová volba má
///   stejný předmět a kapacitu, název „název (n)“ a zadaného učitele a přidá se na konec;
/// - ostatní menu se nemění, žáci zůstanou tíž a mění se jen jejich volby;
/// - členové skupiny z druhé abecední poloviny mají místo `vid` nově `id`, ostatní žáci
///   se nemění;
/// - součet obsazenosti obou skupin je stejný jako obsazenost původní volby.
pub open spec fn rozdeleno(r0: SkolniRok, r: SkolniRok, mi: int, vi: int, ucitel: Seq<char>, id: Seq<char>) -> bool {
    let m = r0.menu@[mi];
    let p = m.volby@[vi];
    let vid = p.id@;
    let st0 = r0.studenti@;
    let st = r.studenti@;
    &&& exists|n: nat|
        2 <= n && id == kandidat_id(vid, n) && !ids_voleb(m@).contains(id) && (forall|k: nat|
            2 <= k < n ==> ids_voleb(m@).contains(#[trigger] kandidat_id(vid, k))) && r.menu@[mi]@ == (MenuV {
            volby: m@.volby.push(
                VolbaV {
                    id,
                    nazev: p.nazev@ + seq![' ', '('] + desitkove(n) + seq![')'],
                    predmet: p.predmet@,
                    ucitel,
                    kapacita: p.kapacita,
                },
            ),
            ..m@
        })
    &&& r.menu@.len() == r0.menu@.len()
    &&& forall|q: int| 0 <= q < r0.menu@.len() && q != mi ==> #[trigger] r.menu@[q] == r0.menu@[q]
    &&& st.len() == st0.len()
    &&& volby_platne(st)
    &&& forall|j: int| 0 <= j < st.len() ==> jen_volby(#[trigger] st0[j], st[j])
    &&& forall|j: int|
        0 <= j < st.len() && presouva_se(st0, m, vid, j) ==> volby_map((#[trigger] st[j]).volby) == volby_map(
            st0[j].volby,
        ).insert(m.id@, nahrad(volby_v_menu(st0[j], m.id@), vid, id))
    &&& forall|j: int| 0 <= j < st.len() && !presouva_se(st0, m, vid, j) ==> #[trigger] st[j] == st0[j]
    &&& crate::rok::obsazeno(st, m, vid) + crate::rok::obsazeno(st, m, id) == crate::rok::obsazeno(st0, m, vid)
        + crate::rok::obsazeno(st0, m, id)
}

/// Rozdělí volbu na dvě skupiny: druhá polovina žáků (abecedně) přejde do nové volby se
/// stejným předmětem a zadaným učitelem. Vrací id nové volby (`None`, když menu nebo
/// volba neexistuje).
pub fn rozdel_skupinu(rok: &mut SkolniRok, menu_id: &str, volba_id: &str, ucitel: &str) -> (r: Option<String>)
    requires
        volby_platne(old(rok).studenti@),
        forall|q: int| 0 <= q < old(rok).menu@.len() ==> (#[trigger] old(rok).menu@[q]).volby@.len() + 3 < usize::MAX,
    ensures
        final(rok).label == old(rok).label,
        final(rok).dalsi_id == old(rok).dalsi_id,
        r is None <==> (index_menu(old(rok).menu@, menu_id@) == -1 || index_volby(
            old(rok).menu@[index_menu(old(rok).menu@, menu_id@)].volby@,
            volba_id@,
        ) == -1),
        r is None ==> final(rok).menu@ == old(rok).menu@ && final(rok).studenti@ == old(rok).studenti@,
        match r {
            Some(id) => rozdeleno(
                *old(rok),
                *final(rok),
                index_menu(old(rok).menu@, menu_id@),
                index_volby(old(rok).menu@[index_menu(old(rok).menu@, menu_id@)].volby@, volba_id@),
                ucitel@,
                id@,
            ),
            None => true,
        },
{
    let mi = match najdi_menu(&rok.menu, menu_id) {
        Some(i) => i,
        None => {
            return None;
        },
    };
    let vi = match najdi_volbu(&rok.menu[mi].volby, volba_id) {
        Some(i) => i,
        None => {
            return None;
        },
    };
    let ghost m = rok.menu@[mi as int];
    let ghost st0 = rok.studenti@;
    let ghost ids = ids_voleb(m@);
    proof {
        crate::hledani::lemma_prvni(rok.menu@, |x: Menu| x.id@ == menu_id@);
        assert(m.id@ == menu_id@);
        crate::doplneni::lemma_ids_voleb(m);
        lemma_volne_id(ids, volba_id@);
    }
    let puvodni = rok.menu[mi].volby[vi].kopie();
    let delka = rok.menu[mi].volby.len();
    let mut n: usize = 2;
    let mut nove = kandidat(volba_id, 2);
    while je_volba(&rok.menu[mi], nove.as_str())
        invariant
            2 <= n <= delka + 2,
            delka + 3 < usize::MAX,
            delka == ids.len(),
            mi < rok.menu@.len(),
            rok.menu@[mi as int] == m,
            ids == ids_voleb(m@),
            nove@ == kandidat_id(volba_id@, n as nat),
            forall|k: nat| 2 <= k < n ==> ids.contains(#[trigger] kandidat_id(volba_id@, k)),
            exists|k: int| 2 <= k < ids.len() + 3 && !ids.contains(#[trigger] kandidat_id(volba_id@, k as nat)),
        decreases delka + 2 - n,
    {
        proof {
            assert(ids.contains(kandidat_id(volba_id@, n as nat)));
            if n == delka + 2 {
                let k = choose|k: int| 2 <= k < ids.len() + 3 && !ids.contains(#[trigger] kandidat_id(volba_id@, k as nat));
                assert(ids.contains(kandidat_id(volba_id@, k as nat)));
            }
        }
        n = n + 1;
        nove = kandidat(volba_id, n);
    }
    // Členové skupiny a jejich pořadí podle jmen.
    let mut cl: Vec<bool> = Vec::new();
    let mut j: usize = 0;
    while j < rok.studenti.len()
        invariant
            j <= rok.studenti@.len(),
            rok.studenti@ == st0,
            volby_platne(st0),
            mi < rok.menu@.len(),
            rok.menu@[mi as int] == m,
            cl@.len() == j,
            forall|i: int| 0 <= i < j ==> cl@[i] == clen(#[trigger] st0[i], m, volba_id@),
        decreases rok.studenti@.len() - j,
    {
        assert(st0[j as int].volby.dobre());
        cl.push(je_clen(&rok.studenti[j], &rok.menu[mi], volba_id));
        j = j + 1;
    }
    let mut pocet: usize = 0;
    let mut j: usize = 0;
    while j < cl.len()
        invariant
            j <= cl@.len(),
            cl@.len() == st0.len(),
            forall|i: int| 0 <= i < st0.len() ==> cl@[i] == clen(#[trigger] st0[i], m, volba_id@),
            pocet == pocet_clenu(st0, m, volba_id@, j as int),
            pocet <= j,
        decreases cl@.len() - j,
    {
        if cl[j] {
            pocet = pocet + 1;
        }
        j = j + 1;
    }
    let h = pocet / 2;
    let mut presun: Vec<bool> = Vec::new();
    let mut j: usize = 0;
    while j < cl.len()
        invariant
            j <= cl@.len(),
            cl@.len() == st0.len(),
            rok.studenti@ == st0,
            forall|i: int| 0 <= i < st0.len() ==> cl@[i] == clen(#[trigger] st0[i], m, volba_id@),
            h == pocet_clenu(st0, m, volba_id@, st0.len() as int) / 2,
            presun@.len() == j,
            forall|i: int| 0 <= i < j ==> presun@[i] == presouva_se(st0, m, volba_id@, i),
        decreases cl@.len() - j,
    {
        if cl[j] {
            let mut poradi: usize = 0;
            let mut i: usize = 0;
            while i < cl.len()
                invariant
                    i <= cl@.len(),
                    j < cl@.len(),
                    cl@.len() == st0.len(),
                    rok.studenti@ == st0,
                    forall|i2: int| 0 <= i2 < st0.len() ==> cl@[i2] == clen(#[trigger] st0[i2], m, volba_id@),
                    poradi == pred_clenem(st0, m, volba_id@, j as int, i as int),
                    poradi <= i,
                decreases cl@.len() - i,
            {
                if cl[i] && drive_exec(&rok.studenti, i, j) {
                    poradi = poradi + 1;
                }
                i = i + 1;
            }
            presun.push(poradi >= h);
        } else {
            presun.push(false);
        }
        j = j + 1;
    }
    // Nová volba.
    let mut nazev = puvodni.nazev.clone();
    pripoj(&mut nazev, " (");
    let c = cislo(n as u64);
    pripoj(&mut nazev, c.as_str());
    pripoj(&mut nazev, ")");
    let nova = Volba {
        id: nove.clone(),
        nazev,
        predmet: puvodni.predmet.clone(),
        ucitel: ucitel.to_owned(),
        kapacita: puvodni.kapacita,
    };
    let ghost nova_v = nova@;
    rok.menu[mi].volby.push(nova);
    proof {
        reveal_strlit(" (");
        reveal_strlit(")");
        assert(nova_v.nazev =~= puvodni.nazev@ + seq![' ', '('] + desitkove(n as nat) + seq![')']);
        assert(rok.menu@[mi as int]@.volby =~= m@.volby.push(nova_v));
        assert(!ids.contains(nove@));
    }
    // Druhá polovina přejde do nové skupiny.
    let ghost menu_po = rok.menu@;
    let mut j: usize = 0;
    while j < presun.len()
        invariant
            j <= presun@.len(),
            presun@.len() == st0.len(),
            rok.studenti@.len() == st0.len(),
            m.id@ == menu_id@,
            forall|i: int| 0 <= i < st0.len() ==> presun@[i] == presouva_se(st0, m, volba_id@, i),
            volby_platne(rok.studenti@),
            forall|i: int| 0 <= i < st0.len() ==> jen_volby(#[trigger] st0[i], rok.studenti@[i]),
            forall|i: int|
                0 <= i < j && presouva_se(st0, m, volba_id@, i) ==> volby_map((#[trigger] rok.studenti@[i]).volby)
                    == volby_map(st0[i].volby).insert(m.id@, nahrad(volby_v_menu(st0[i], m.id@), volba_id@, nove@)),
            forall|i: int|
                0 <= i < st0.len() && (i >= j || !presouva_se(st0, m, volba_id@, i)) ==> #[trigger] rok.studenti@[i]
                    == st0[i],
            rok.menu@ == menu_po,
            rok.label == old(rok).label,
            rok.dalsi_id == old(rok).dalsi_id,
        decreases presun@.len() - j,
    {
        if presun[j] {
            let ghost s0 = rok.studenti@;
            proof {
                assert(s0[j as int] == st0[j as int]);
                assert(clen(st0[j as int], m, volba_id@));
                assert(st0[j as int].volby.dobre());
                assert(volby_v_menu(st0[j as int], m.id@).len() > 0);
            }
            presun_zaka(&mut rok.studenti[j], menu_id, volba_id, nove.as_str());
            proof {
                assert forall|i: int| 0 <= i < rok.studenti@.len() implies (#[trigger] rok.studenti@[i]).volby.dobre() by {
                    if i != j {
                        assert(s0[i].volby.dobre());
                    }
                }
                assert forall|i: int| 0 <= i < st0.len() implies jen_volby(#[trigger] st0[i], rok.studenti@[i]) by {
                    if i != j {
                        assert(jen_volby(st0[i], s0[i]));
                    }
                }
            }
        }
        j = j + 1;
    }
    proof {
        let st = rok.studenti@;
        assert(nove@.len() > volba_id@.len());
        assert forall|i: int| 0 <= i < st0.len() implies zapsan(#[trigger] st[i], m) == zapsan(st0[i], m) && (
        volby_v_menu(st[i], m.id@) == volby_v_menu(st0[i], m.id@) || volby_v_menu(st[i], m.id@) == nahrad(
            volby_v_menu(st0[i], m.id@),
            volba_id@,
            nove@,
        )) by {
            assert(jen_volby(st0[i], st[i]));
            if presouva_se(st0, m, volba_id@, i) {
                crate::doplneni::lemma_volby_v_menu(st[i], m.id@);
            }
        }
        lemma_presun_zachova(st0, st, m, volba_id@, nove@);
        assert(m.volby@[vi as int].id@ == volba_id@);
    }
    Some(nove)
}

} // verus!
