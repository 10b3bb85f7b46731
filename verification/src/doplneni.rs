//! Doplňování chybějících voleb: volby menu se rozdělí do bloků a žák dostane z každého
//! bloku nejméně obsazenou volbu, dokud nemá tolik voleb, kolik menu předepisuje.

use crate::data::{retezce, Menu, SkolniRok, Student, StudentV};
use crate::mapa::Mapa;
use crate::nahoda::{rng_ze_semene, zamichej};
use crate::rok::{
    bez_prazdnych, celkem_voleb, ids_voleb, index_menu, je_volba, najdi_menu, obsahuje, obsazenost, obsazeno,
    pocet_v, volby_map, volby_platne, volby_v_menu, zapsan,
};
use rand::rngs::StdRng;
use vstd::prelude::*;

verus! {

/// Jen volby, které menu nabízí (v původním pořadí).
pub open spec fn platne_volby(v: Seq<Seq<char>>, ids: Seq<Seq<char>>) -> Seq<Seq<char>>
    decreases v.len(),
{
    if v.len() == 0 {
        Seq::empty()
    } else {
        let p = platne_volby(v.drop_last(), ids);
        if ids.contains(v.last()) {
            p.push(v.last())
        } else {
            p
        }
    }
}

/// Počet zapsaných voleb žáků menu.
pub open spec fn zapsane(st: Seq<Student>, m: Menu) -> nat
    decreases st.len(),
{
    if st.len() == 0 {
        0
    } else {
        zapsane(st.drop_last(), m) + (if zapsan(st.last(), m) {
            volby_v_menu(st.last(), m.id@).len()
        } else {
            0nat
        })
    }
}

/// Počet zapsaných voleb žáků menu, které menu nabízí.
pub open spec fn zapsane_platne(st: Seq<Student>, m: Menu) -> nat
    decreases st.len(),
{
    if st.len() == 0 {
        0
    } else {
        zapsane_platne(st.drop_last(), m) + (if zapsan(st.last(), m) {
            platne_volby(volby_v_menu(st.last(), m.id@), ids_voleb(m@)).len()
        } else {
            0nat
        })
    }
}

/// Žáci se liší nejvýše volbami.
pub open spec fn jen_volby(a: Student, b: Student) -> bool {
    a@ == StudentV { volby: a@.volby, ..b@ }
}

/// Id voleb menu jsou navzájem různá.
pub open spec fn ruzna_id(m: Menu) -> bool {
    forall|i: int, j: int|
        0 <= i < j < m.volby@.len() ==> (#[trigger] m.volby@[i]).id@ != (#[trigger] m.volby@[j]).id@
}

/// Větší z čísel.
pub open spec fn vetsi(a: int, b: int) -> int {
    if a < b {
        b
    } else {
        a
    }
}

pub(crate) proof fn lemma_ids_voleb(m: Menu)
    ensures
        ids_voleb(m@).len() == m.volby@.len(),
        forall|j: int| 0 <= j < m.volby@.len() ==> #[trigger] ids_voleb(m@)[j] == m.volby@[j].id@,
{
}

proof fn lemma_pocet_spojeni(a: Seq<Seq<char>>, b: Seq<Seq<char>>, k: Seq<char>)
    ensures
        pocet_v(a + b, k) == pocet_v(a, k) + pocet_v(b, k),
    decreases b.len(),
{
    if b.len() > 0 {
        lemma_pocet_spojeni(a, b.drop_last(), k);
        assert((a + b).drop_last() =~= a + b.drop_last());
        assert((a + b).last() == b.last());
    } else {
        assert(a + b =~= a);
    }
}

proof fn lemma_platne_pocet(v: Seq<Seq<char>>, ids: Seq<Seq<char>>, k: Seq<char>)
    requires
        ids.contains(k),
    ensures
        pocet_v(platne_volby(v, ids), k) == pocet_v(v, k),
    decreases v.len(),
{
    if v.len() > 0 {
        lemma_platne_pocet(v.drop_last(), ids, k);
        let p = platne_volby(v.drop_last(), ids);
        assert(p.push(v.last()).drop_last() =~= p);
    }
}

proof fn lemma_platne_jsou_platne(v: Seq<Seq<char>>, ids: Seq<Seq<char>>)
    ensures
        forall|q: int| 0 <= q < platne_volby(v, ids).len() ==> ids.contains(#[trigger] platne_volby(v, ids)[q]),
    decreases v.len(),
{
    if v.len() > 0 {
        lemma_platne_jsou_platne(v.drop_last(), ids);
        let p = platne_volby(v.drop_last(), ids);
        if ids.contains(v.last()) {
            assert forall|q: int| 0 <= q < p.push(v.last()).len() implies ids.contains(#[trigger] p.push(v.last())[q]) by {
                if q < p.len() {
                    assert(p.push(v.last())[q] == p[q]);
                }
            }
        }
    }
}

proof fn lemma_platne_ze_platnych(v: Seq<Seq<char>>, ids: Seq<Seq<char>>)
    requires
        forall|q: int| 0 <= q < v.len() ==> ids.contains(#[trigger] v[q]),
    ensures
        platne_volby(v, ids) == v,
    decreases v.len(),
{
    if v.len() > 0 {
        assert(ids.contains(v[v.len() - 1]));
        lemma_platne_ze_platnych(v.drop_last(), ids);
        assert(v.drop_last().push(v.last()) =~= v);
    } else {
        assert(v =~= Seq::<Seq<char>>::empty());
    }
}

/// Změna jednoho žáka změní součty o rozdíl jeho příspěvků.
proof fn lemma_zmena_zaka(st: Seq<Student>, i: int, s2: Student, m: Menu, k: Seq<char>)
    requires
        0 <= i < st.len(),
    ensures
        obsazeno(st.update(i, s2), m, k) + (if zapsan(st[i], m) {
            pocet_v(volby_v_menu(st[i], m.id@), k)
        } else {
            0nat
        }) == obsazeno(st, m, k) + (if zapsan(s2, m) {
            pocet_v(volby_v_menu(s2, m.id@), k)
        } else {
            0nat
        }),
        zapsane(st.update(i, s2), m) + (if zapsan(st[i], m) {
            volby_v_menu(st[i], m.id@).len()
        } else {
            0nat
        }) == zapsane(st, m) + (if zapsan(s2, m) {
            volby_v_menu(s2, m.id@).len()
        } else {
            0nat
        }),
    decreases st.len(),
{
    let u = st.update(i, s2);
    if i == st.len() - 1 {
        assert(u.drop_last() =~= st.drop_last());
        assert(u.last() == s2);
    } else {
        lemma_zmena_zaka(st.drop_last(), i, s2, m, k);
        assert(u.drop_last() =~= st.drop_last().update(i, s2));
        assert(u.last() == st.last());
    }
}

/// Filtrování voleb zapsaných žáků nemění obsazenost nabízených voleb a počet
/// zapsaných voleb je pak počtem platných.
proof fn lemma_po_filtru(a: Seq<Student>, b: Seq<Student>, m: Menu, k: Seq<char>)
    requires
        a.len() == b.len(),
        forall|j: int| 0 <= j < a.len() ==> zapsan(#[trigger] b[j], m) == zapsan(a[j], m),
        forall|j: int|
            0 <= j < a.len() && zapsan(#[trigger] a[j], m) ==> volby_v_menu(b[j], m.id@) == platne_volby(
                volby_v_menu(a[j], m.id@),
                ids_voleb(m@),
            ),
    ensures
        zapsane(b, m) == zapsane_platne(a, m),
        ids_voleb(m@).contains(k) ==> obsazeno(b, m, k) == obsazeno(a, m, k),
    decreases a.len(),
{
    if a.len() > 0 {
        let n = a.len() - 1;
        assert(zapsan(b[n], m) == zapsan(a[n], m));
        assert forall|j: int| 0 <= j < a.drop_last().len() implies zapsan(#[trigger] b.drop_last()[j], m) == zapsan(
            a.drop_last()[j],
            m,
        ) by {
            assert(zapsan(b[j], m) == zapsan(a[j], m));
        }
        assert forall|j: int|
            0 <= j < a.drop_last().len() && zapsan(#[trigger] a.drop_last()[j], m) implies volby_v_menu(
            b.drop_last()[j],
            m.id@,
        ) == platne_volby(volby_v_menu(a.drop_last()[j], m.id@), ids_voleb(m@)) by {
            assert(zapsan(a[j], m));
        }
        lemma_po_filtru(a.drop_last(), b.drop_last(), m, k);
        if ids_voleb(m@).contains(k) && zapsan(a[n], m) {
            lemma_platne_pocet(volby_v_menu(a[n], m.id@), ids_voleb(m@), k);
        }
    }
}

/// Žáci se stejnými volbami v menu dávají stejné součty.
proof fn lemma_stejne_volby(a: Seq<Student>, b: Seq<Student>, m: Menu, k: Seq<char>)
    requires
        a.len() == b.len(),
        forall|j: int|
            0 <= j < a.len() ==> zapsan(#[trigger] b[j], m) == zapsan(a[j], m) && volby_v_menu(b[j], m.id@)
                == volby_v_menu(a[j], m.id@),
    ensures
        zapsane(b, m) == zapsane(a, m),
        obsazeno(b, m, k) == obsazeno(a, m, k),
    decreases a.len(),
{
    if a.len() > 0 {
        let n = a.len() - 1;
        assert(zapsan(b[n], m) == zapsan(a[n], m));
        assert forall|j: int| 0 <= j < a.drop_last().len() implies zapsan(#[trigger] b.drop_last()[j], m) == zapsan(
            a.drop_last()[j],
            m,
        ) && volby_v_menu(b.drop_last()[j], m.id@) == volby_v_menu(a.drop_last()[j], m.id@) by {
            assert(zapsan(b[j], m) == zapsan(a[j], m));
        }
        lemma_stejne_volby(a.drop_last(), b.drop_last(), m, k);
    }
}

/// Volby žáka v menu podle mapy voleb.
pub(crate) proof fn lemma_volby_v_menu(s: Student, k: Seq<char>)
    ensures
        volby_v_menu(s, k) == (if volby_map(s.volby).contains_key(k) {
            volby_map(s.volby)[k]
        } else {
            Seq::empty()
        }),
{
}

/// Náhodná permutace zachová vlastnost všech prvků.
proof fn lemma_permutace_zachova(a: Seq<usize>, b: Seq<usize>, p: spec_fn(usize) -> bool)
    requires
        forall|k: int| 0 <= k < a.len() ==> p(#[trigger] a[k]),
        b.to_multiset() == a.to_multiset(),
    ensures
        forall|k: int| 0 <= k < b.len() ==> p(#[trigger] b[k]),
{
    broadcast use vstd::seq_lib::group_to_multiset_ensures;

    assert forall|k: int| 0 <= k < b.len() implies p(#[trigger] b[k]) by {
        assert(b.contains(b[k]));
        assert(b.to_multiset().count(b[k]) > 0);
        assert(a.contains(b[k]));
        let j = choose|j: int| 0 <= j < a.len() && a[j] == b[k];
        assert(p(a[j]));
    }
}

/// Seznam bez voleb, které menu nenabízí.
fn filtruj(v: &Vec<String>, m: &Menu) -> (r: Vec<String>)
    ensures
        retezce(r@) == platne_volby(retezce(v@), ids_voleb(m@)),
{
    let mut r: Vec<String> = Vec::new();
    let mut i: usize = 0;
    while i < v.len()
        invariant
            i <= v@.len(),
            retezce(r@) == platne_volby(retezce(v@).take(i as int), ids_voleb(m@)),
        decreases v@.len() - i,
    {
        proof {
            assert(retezce(v@).take(i + 1).drop_last() =~= retezce(v@).take(i as int));
            assert(retezce(v@).take(i + 1).last() == v@[i as int]@);
        }
        if je_volba(m, v[i].as_str()) {
            let ghost r0 = r@;
            r.push(v[i].clone());
            proof {
                assert(retezce(r@) =~= retezce(r0).push(v@[i as int]@));
            }
        }
        i = i + 1;
    }
    proof {
        assert(retezce(v@).take(v@.len() as int) =~= retezce(v@));
    }
    r
}

/// Ponechá žákovi v menu jen nabízené volby (záznam menu vznikne i prázdný).
fn prefiltruj(s: &mut Student, m: &Menu)
    requires
        old(s).volby.dobre(),
    ensures
        final(s).volby.dobre(),
        jen_volby(*old(s), *final(s)),
        volby_map(final(s).volby) == volby_map(old(s).volby).insert(
            m.id@,
            platne_volby(volby_v_menu(*old(s), m.id@), ids_voleb(m@)),
        ),
{
    let l = match s.volby.get(m.id.as_str()) {
        Some(v) => filtruj(v, m),
        None => Vec::new(),
    };
    let ghost lv = retezce(l@);
    proof {
        assert(lv =~= platne_volby(volby_v_menu(*old(s), m.id@), ids_voleb(m@)));
    }
    s.volby.insert(m.id.clone(), l);
    proof {
        assert(volby_map(s.volby) =~= volby_map(old(s).volby).insert(m.id@, lv));
        assert(s@ == StudentV { volby: s@.volby, ..old(s)@ });
    }
}

/// Bloky voleb: volba `i` patří do bloku `i mod k`.
fn bloky_voleb(n: usize, k: usize) -> (b: Vec<Vec<usize>>)
    requires
        k >= 1,
    ensures
        b@.len() == k,
        forall|x: int, y: int| 0 <= x < b@.len() && 0 <= y < b@[x]@.len() ==> #[trigger] b@[x]@[y] < n,
        forall|x: int, y: int| 0 <= x < b@.len() && 0 <= y < b@[x]@.len() ==> (#[trigger] b@[x]@[y]) % k == x,
        forall|x: int, vi: usize| 0 <= x < b@.len() && vi < n && vi % k == x ==> #[trigger] b@[x]@.contains(vi),
{
    let mut b: Vec<Vec<usize>> = Vec::new();
    let mut x: usize = 0;
    while x < k
        invariant
            x <= k,
            b@.len() == x,
            forall|x2: int, y: int| 0 <= x2 < b@.len() && 0 <= y < b@[x2]@.len() ==> #[trigger] b@[x2]@[y] < n,
            forall|x2: int, y: int| 0 <= x2 < b@.len() && 0 <= y < b@[x2]@.len() ==> (#[trigger] b@[x2]@[y]) % k == x2,
            forall|x2: int, vi: usize| 0 <= x2 < b@.len() && vi < n && vi % k == x2 ==> #[trigger] b@[x2]@.contains(vi),
        decreases k - x,
    {
        let mut blok: Vec<usize> = Vec::new();
        let mut i: usize = 0;
        while i < n
            invariant
                i <= n,
                k >= 1,
                x < k,
                forall|y: int| 0 <= y < blok@.len() ==> #[trigger] blok@[y] < n,
                forall|y: int| 0 <= y < blok@.len() ==> (#[trigger] blok@[y]) % k == x,
                forall|vi: usize| vi < i && vi % k == x ==> #[trigger] blok@.contains(vi),
            decreases n - i,
        {
            let ghost b0 = blok@;
            if i % k == x {
                blok.push(i);
                proof {
                    assert(blok@[b0.len() as int] == i);
                }
            }
            proof {
                assert forall|vi: usize| vi < i + 1 && vi % k == x implies #[trigger] blok@.contains(vi) by {
                    if vi < i {
                        assert(b0.contains(vi));
                        let y = choose|y: int| 0 <= y < b0.len() && b0[y] == vi;
                        assert(blok@[y] == vi);
                    }
                }
            }
            i = i + 1;
        }
        let ghost bb = b@;
        b.push(blok);
        proof {
            assert forall|x2: int, vi: usize| 0 <= x2 < b@.len() && vi < n && vi % k == x2 implies #[trigger] b@[x2]@.contains(vi) by {
                if x2 < bb.len() {
                    assert(b@[x2] == bb[x2]);
                }
            }
        }
        x = x + 1;
    }
    b
}

/// Obsazenost volby podle počítadel (0 pro neznámé id).
fn obsazeni_volby(obs: &Mapa<usize>, id: &str) -> (r: usize)
    requires
        obs.dobre(),
    ensures
        obs.ma(id@) ==> r == obs.hodnota(id@),
{
    match obs.get(id) {
        Some(c) => *c,
        None => 0,
    }
}

/// Kapacita volby `vi` dovoluje přidat dalšího žáka.
pub open spec fn volne_misto(m: Menu, obs: Mapa<usize>, vi: int) -> bool {
    match m.volby@[vi].kapacita {
        Some(c) => obs.hodnota(m.volby@[vi].id@) < c,
        None => true,
    }
}

/// Blok `b` je pro žáka se seznamem voleb `l` vyřešen: žák má některou jeho volbu, nebo
/// v bloku není volba s volným místem.
pub open spec fn blok_vyresen(m: Menu, bloky: Seq<Vec<usize>>, l: Seq<Seq<char>>, obs: Mapa<usize>, b: int) -> bool {
    ||| exists|y: int| 0 <= y < bloky[b]@.len() && l.contains(#[trigger] m.volby@[bloky[b]@[y] as int].id@)
    ||| forall|y: int| 0 <= y < bloky[b]@.len() ==> !#[trigger] volne_misto(m, obs, bloky[b]@[y] as int)
}

/// Žák volby jen přibírá a obsazenost voleb menu jen roste.
pub open spec fn jen_pribyva(m: Menu, l1: Seq<Seq<char>>, o1: Mapa<usize>, l2: Seq<Seq<char>>, o2: Mapa<usize>) -> bool {
    &&& forall|x: Seq<char>| l1.contains(x) ==> l2.contains(x)
    &&& forall|j: int| 0 <= j < m.volby@.len() ==> o2.hodnota(#[trigger] m.volby@[j].id@) >= o1.hodnota(m.volby@[j].id@)
}

/// Vyřešený blok zůstane vyřešený, když žák volby jen přibírá a obsazenost jen roste.
proof fn lemma_blok_vyresen_trva(m: Menu, bloky: Seq<Vec<usize>>, l1: Seq<Seq<char>>, o1: Mapa<usize>, l2: Seq<Seq<char>>, o2: Mapa<usize>, b: int)
    requires
        0 <= b < bloky.len(),
        forall|y: int| 0 <= y < bloky[b]@.len() ==> #[trigger] bloky[b]@[y] < m.volby@.len(),
        blok_vyresen(m, bloky, l1, o1, b),
        jen_pribyva(m, l1, o1, l2, o2),
    ensures
        blok_vyresen(m, bloky, l2, o2, b),
{
    if exists|y: int| 0 <= y < bloky[b]@.len() && l1.contains(#[trigger] m.volby@[bloky[b]@[y] as int].id@) {
        let y = choose|y: int| 0 <= y < bloky[b]@.len() && l1.contains(#[trigger] m.volby@[bloky[b]@[y] as int].id@);
        assert(l2.contains(m.volby@[bloky[b]@[y] as int].id@));
    } else {
        assert forall|y: int| 0 <= y < bloky[b]@.len() implies !#[trigger] volne_misto(m, o2, bloky[b]@[y] as int) by {
            assert(!volne_misto(m, o1, bloky[b]@[y] as int));
            let vi = bloky[b]@[y] as int;
            assert(o2.hodnota(m.volby@[vi].id@) >= o1.hodnota(m.volby@[vi].id@));
        }
    }
}

/// Kapacity voleb drží: obsazenost nepřekročí větší z původní obsazenosti a kapacity.
pub open spec fn kapacity_drzi(m: Menu, obs: Mapa<usize>, obs0: Mapa<usize>) -> bool {
    forall|j: int|
        0 <= j < m.volby@.len() ==> match (#[trigger] m.volby@[j]).kapacita {
            Some(c) => obs.hodnota(m.volby@[j].id@) <= vetsi(obs0.hodnota(m.volby@[j].id@) as int, c as int),
            None => true,
        }
}

/// Doplní žákovi volby: z každého bloku, z něhož ještě nic nemá, dostane nejméně
/// obsazenou volbu s volným místem (při shodě rozhodne náhoda), dokud nemá `k` voleb.
fn pridej_zakovi(
    s: &mut Student,
    m: &Menu,
    bloky: &Vec<Vec<usize>>,
    k: usize,
    obs: &mut Mapa<usize>,
    rng: &mut StdRng,
) -> (r: usize)
    requires
        old(s).volby.dobre(),
        old(s).volby.ma(m.id@),
        forall|q: int|
            0 <= q < volby_v_menu(*old(s), m.id@).len() ==> ids_voleb(m@).contains(
                #[trigger] volby_v_menu(*old(s), m.id@)[q],
            ),
        1 <= k <= 255,
        forall|x: int, y: int|
            0 <= x < bloky@.len() && 0 <= y < bloky@[x]@.len() ==> #[trigger] bloky@[x]@[y] < m.volby@.len(),
        old(obs).dobre(),
        forall|x: Seq<char>| old(obs).ma(x) <==> ids_voleb(m@).contains(x),
        forall|x: Seq<char>| old(obs).ma(x) ==> old(obs).hodnota(x) + 255 < usize::MAX,
    ensures
        final(s).volby.dobre(),
        jen_volby(*old(s), *final(s)),
        r <= k,
        volby_v_menu(*final(s), m.id@).len() == volby_v_menu(*old(s), m.id@).len() + r,
        r == 0 || volby_v_menu(*final(s), m.id@).len() <= k,
        volby_v_menu(*final(s), m.id@).take(volby_v_menu(*old(s), m.id@).len() as int) == volby_v_menu(
            *old(s),
            m.id@,
        ),
        forall|q: int|
            0 <= q < volby_v_menu(*final(s), m.id@).len() ==> ids_voleb(m@).contains(
                #[trigger] volby_v_menu(*final(s), m.id@)[q],
            ),
        volby_map(final(s).volby) == volby_map(old(s).volby).insert(m.id@, volby_v_menu(*final(s), m.id@)),
        final(obs).dobre(),
        forall|x: Seq<char>| final(obs).ma(x) == old(obs).ma(x),
        forall|x: Seq<char>|
            old(obs).ma(x) ==> final(obs).hodnota(x) == old(obs).hodnota(x) + pocet_v(
                volby_v_menu(*final(s), m.id@).skip(volby_v_menu(*old(s), m.id@).len() as int),
                x,
            ),
        ruzna_id(*m) ==> kapacity_drzi(*m, *final(obs), *old(obs)),
        volby_v_menu(*final(s), m.id@).len() >= k || forall|b: int|
            0 <= b < bloky@.len() ==> #[trigger] blok_vyresen(*m, bloky@, volby_v_menu(*final(s), m.id@), *final(obs), b),
{
    proof {
        lemma_ids_voleb(*m);
    }
    let ghost o = volby_v_menu(*old(s), m.id@);
    let ghost obs0 = *obs;
    let mut l: Vec<String> = match s.volby.get(m.id.as_str()) {
        Some(v) => crate::data::kopie_retezcu(v),
        None => Vec::new(),
    };
    let mut r: usize = 0;
    let mut b: usize = 0;
    while b < bloky.len()
        invariant
            b <= bloky@.len(),
            1 <= k <= 255,
            ids_voleb(m@).len() == m.volby@.len(),
            forall|j: int| 0 <= j < m.volby@.len() ==> #[trigger] ids_voleb(m@)[j] == m.volby@[j].id@,
            forall|x: int, y: int|
                0 <= x < bloky@.len() && 0 <= y < bloky@[x]@.len() ==> #[trigger] bloky@[x]@[y] < m.volby@.len(),
            retezce(l@).len() == o.len() + r,
            retezce(l@).take(o.len() as int) == o,
            r == 0 || o.len() + r <= k,
            forall|q: int| 0 <= q < retezce(l@).len() ==> ids_voleb(m@).contains(#[trigger] retezce(l@)[q]),
            obs.dobre(),
            obs0.dobre(),
            forall|x: Seq<char>| obs0.ma(x) <==> ids_voleb(m@).contains(x),
            forall|x: Seq<char>| obs0.ma(x) ==> obs0.hodnota(x) + 255 < usize::MAX,
            forall|x: Seq<char>| obs.ma(x) == obs0.ma(x),
            forall|x: Seq<char>| obs.ma(x) <==> ids_voleb(m@).contains(x),
            forall|x: Seq<char>|
                obs0.ma(x) ==> obs.hodnota(x) == obs0.hodnota(x) + pocet_v(retezce(l@).skip(o.len() as int), x),
            ruzna_id(*m) ==> kapacity_drzi(*m, *obs, obs0),
            forall|b2: int| 0 <= b2 < b ==> #[trigger] blok_vyresen(*m, bloky@, retezce(l@), *obs, b2),
        ensures
            retezce(l@).len() >= k || b == bloky@.len(),
            forall|b2: int| 0 <= b2 < b ==> #[trigger] blok_vyresen(*m, bloky@, retezce(l@), *obs, b2),
            retezce(l@).len() == o.len() + r,
            retezce(l@).take(o.len() as int) == o,
            r == 0 || o.len() + r <= k,
            forall|q: int| 0 <= q < retezce(l@).len() ==> ids_voleb(m@).contains(#[trigger] retezce(l@)[q]),
            obs.dobre(),
            forall|x: Seq<char>| obs.ma(x) == obs0.ma(x),
            forall|x: Seq<char>|
                obs0.ma(x) ==> obs.hodnota(x) == obs0.hodnota(x) + pocet_v(retezce(l@).skip(o.len() as int), x),
            ruzna_id(*m) ==> kapacity_drzi(*m, *obs, obs0),
        decreases bloky@.len() - b,
    {
        if l.len() >= k {
            break;
        }
        let ghost l_b = retezce(l@);
        let ghost obs_b = *obs;
        let blok = &bloky[b];
        let mut uz = false;
        let mut q: usize = 0;
        while q < blok.len()
            invariant
                q <= blok@.len(),
                b < bloky@.len(),
                *blok == bloky@[b as int],
                forall|x: int, y: int|
                    0 <= x < bloky@.len() && 0 <= y < bloky@[x]@.len() ==> #[trigger] bloky@[x]@[y] < m.volby@.len(),
                l_b == retezce(l@),
                uz ==> exists|y: int| 0 <= y < blok@.len() && l_b.contains(#[trigger] m.volby@[blok@[y] as int].id@),
            decreases blok@.len() - q,
        {
            assert(bloky@[b as int]@[q as int] < m.volby@.len());
            if obsahuje(&l, m.volby[blok[q]].id.as_str()) {
                uz = true;
            }
            q = q + 1;
        }
        if !uz {
            let ghost p = |vi: usize| vi < m.volby@.len() && volne_misto(*m, *obs, vi as int);
            let mut kand: Vec<usize> = Vec::new();
            let mut q: usize = 0;
            while q < blok.len()
                invariant
                    q <= blok@.len(),
                    b < bloky@.len(),
                    *blok == bloky@[b as int],
                    p == (|vi: usize| vi < m.volby@.len() && volne_misto(*m, *obs, vi as int)),
                    obs.dobre(),
                    forall|j: int| 0 <= j < m.volby@.len() ==> #[trigger] ids_voleb(m@)[j] == m.volby@[j].id@,
                    forall|x: Seq<char>| obs.ma(x) <==> ids_voleb(m@).contains(x),
                    forall|x: int, y: int|
                        0 <= x < bloky@.len() && 0 <= y < bloky@[x]@.len() ==> #[trigger] bloky@[x]@[y]
                            < m.volby@.len(),
                    forall|y: int| 0 <= y < kand@.len() ==> p(#[trigger] kand@[y]),
                    forall|y: int| 0 <= y < kand@.len() ==> blok@.contains(#[trigger] kand@[y]),
                    forall|y: int| 0 <= y < q && volne_misto(*m, *obs, #[trigger] blok@[y] as int) ==> kand@.len() > 0,
                    *obs == obs_b,
                decreases blok@.len() - q,
            {
                let vi = blok[q];
                assert(bloky@[b as int]@[q as int] < m.volby@.len());
                let volno = match m.volby[vi].kapacita {
                    None => true,
                    Some(kap) => {
                        assert(ids_voleb(m@)[vi as int] == m.volby@[vi as int].id@);
                        assert(obs.ma(m.volby@[vi as int].id@));
                        obsazeni_volby(obs, m.volby[vi].id.as_str()) < kap as usize
                    },
                };
                if volno {
                    kand.push(vi);
                }
                q = q + 1;
            }
            let ghost k0 = kand@;
            zamichej(&mut kand, rng);
            proof {
                lemma_permutace_zachova(k0, kand@, p);
                lemma_permutace_zachova(k0, kand@, |vi: usize| blok@.contains(vi));
            }
            if kand.len() > 0 {
                assert(p(kand@[0]));
                let mut best: usize = kand[0];
                proof {
                    assert(blok@.contains(kand@[0]));
                }
                assert(obs.ma(m.volby@[best as int].id@)) by {
                    assert(ids_voleb(m@)[best as int] == m.volby@[best as int].id@);
                }
                let mut bc = obsazeni_volby(obs, m.volby[best].id.as_str());
                let mut q: usize = 1;
                while q < kand.len()
                    invariant
                        1 <= q <= kand@.len(),
                        p == (|vi: usize| vi < m.volby@.len() && volne_misto(*m, *obs, vi as int)),
                        forall|y: int| 0 <= y < kand@.len() ==> p(#[trigger] kand@[y]),
                        p(best),
                        obs.dobre(),
                        obs.ma(m.volby@[best as int].id@),
                        bc == obs.hodnota(m.volby@[best as int].id@),
                        forall|j: int| 0 <= j < m.volby@.len() ==> #[trigger] ids_voleb(m@)[j] == m.volby@[j].id@,
                        forall|x: Seq<char>| obs.ma(x) <==> ids_voleb(m@).contains(x),
                        forall|y: int| 0 <= y < kand@.len() ==> blok@.contains(#[trigger] kand@[y]),
                        blok@.contains(best),
                    decreases kand@.len() - q,
                {
                    let vi = kand[q];
                    assert(p(kand@[q as int]));
                    assert(obs.ma(m.volby@[vi as int].id@)) by {
                        assert(ids_voleb(m@)[vi as int] == m.volby@[vi as int].id@);
                    }
                    let c = obsazeni_volby(obs, m.volby[vi].id.as_str());
                    if c < bc {
                        best = vi;
                        bc = c;
                    }
                    q = q + 1;
                }
                let id = m.volby[best].id.clone();
                let ghost lv0 = retezce(l@);
                let ghost obs1 = *obs;
                proof {
                    assert(obs0.ma(id@));
                    crate::rok::lemma_pocet_v_mez(lv0.skip(o.len() as int), id@);
                }
                obs.insert(id.clone(), bc + 1);
                l.push(id);
                r = r + 1;
                proof {
                    let lv = retezce(l@);
                    assert(lv =~= lv0.push(id@));
                    assert(lv.take(o.len() as int) =~= lv0.take(o.len() as int));
                    assert(lv.skip(o.len() as int) =~= lv0.skip(o.len() as int).push(id@));
                    assert(lv.skip(o.len() as int).drop_last() =~= lv0.skip(o.len() as int));
                    assert(ids_voleb(m@)[best as int] == id@);
                    assert forall|q2: int| 0 <= q2 < lv.len() implies ids_voleb(m@).contains(#[trigger] lv[q2]) by {
                        if q2 < lv0.len() {
                            assert(lv[q2] == lv0[q2]);
                        }
                    }
                    assert forall|x: Seq<char>| obs0.ma(x) implies obs.hodnota(x) == obs0.hodnota(x) + pocet_v(
                        lv.skip(o.len() as int),
                        x,
                    ) by {
                        if x != id@ {
                            assert(obs.hodnota(x) == obs1.hodnota(x));
                        }
                    }
                    if ruzna_id(*m) {
                        assert forall|j: int| 0 <= j < m.volby@.len() implies match (#[trigger] m.volby@[j]).kapacita {
                            Some(c) => obs.hodnota(m.volby@[j].id@) <= vetsi(obs0.hodnota(m.volby@[j].id@) as int, c as int),
                            None => true,
                        } by {
                            if j != best {
                                if j < best {
                                    assert(m.volby@[j].id@ != m.volby@[best as int].id@);
                                } else {
                                    assert(m.volby@[best as int].id@ != m.volby@[j].id@);
                                }
                                assert(ids_voleb(m@)[j] == m.volby@[j].id@);
                                assert(obs1.ma(m.volby@[j].id@));
                                assert(obs.hodnota(m.volby@[j].id@) == obs1.hodnota(m.volby@[j].id@));
                            }
                        }
                    }
                    let y = choose|y: int| 0 <= y < blok@.len() && blok@[y] == best;
                    assert(lv.contains(id@)) by {
                        assert(lv[lv.len() - 1] == id@);
                    }
                    assert(m.volby@[blok@[y] as int].id@ == id@);
                    assert(blok_vyresen(*m, bloky@, lv, *obs, b as int));
                    assert forall|x: Seq<char>| lv0.contains(x) implies lv.contains(x) by {
                        crate::hledani::lemma_contains_push(lv0, id@, x);
                    }
                    assert forall|j: int| 0 <= j < m.volby@.len() implies obs.hodnota(#[trigger] m.volby@[j].id@) >= obs1.hodnota(m.volby@[j].id@) by {
                        assert(ids_voleb(m@)[j] == m.volby@[j].id@);
                        if m.volby@[j].id@ != id@ {
                            assert(obs1.ma(m.volby@[j].id@));
                        }
                    }
                    assert(jen_pribyva(*m, l_b, obs_b, retezce(l@), *obs));
                }
            } else {
                proof {
                    assert forall|y: int| 0 <= y < blok@.len() implies !#[trigger] volne_misto(*m, *obs, blok@[y] as int) by {}
                    assert(blok_vyresen(*m, bloky@, retezce(l@), *obs, b as int));
                    assert(jen_pribyva(*m, l_b, obs_b, retezce(l@), *obs));
                }
            }
        } else {
            proof {
                let y = choose|y: int| 0 <= y < blok@.len() && l_b.contains(#[trigger] m.volby@[blok@[y] as int].id@);
                assert(blok_vyresen(*m, bloky@, retezce(l@), *obs, b as int));
                assert(jen_pribyva(*m, l_b, obs_b, retezce(l@), *obs));
            }
        }
        proof {
            assert forall|b2: int| 0 <= b2 < b + 1 implies #[trigger] blok_vyresen(*m, bloky@, retezce(l@), *obs, b2) by {
                if b2 < b {
                    lemma_blok_vyresen_trva(*m, bloky@, l_b, obs_b, retezce(l@), *obs, b2);
                }
            }
        }
        b = b + 1;
    }
    let ghost lf = retezce(l@);
    s.volby.insert(m.id.clone(), l);
    proof {
        assert(volby_map(s.volby) =~= volby_map(old(s).volby).insert(m.id@, lf));
        assert(s@ == StudentV { volby: s@.volby, ..old(s)@ });
        assert(volby_v_menu(*s, m.id@) == lf);
    }
    r
}

/// Zapsaným žákům menu ponechá jen nabízené volby; ostatní žáci se nemění.
fn prefiltruj_zapsane(st: &mut Vec<Student>, m: &Menu)
    requires
        volby_platne(old(st)@),
    ensures
        final(st)@.len() == old(st)@.len(),
        volby_platne(final(st)@),
        forall|j: int| 0 <= j < old(st)@.len() ==> jen_volby(#[trigger] old(st)@[j], final(st)@[j]),
        forall|j: int|
            0 <= j < old(st)@.len() && zapsan(#[trigger] old(st)@[j], *m) ==> volby_map(final(st)@[j].volby)
                == volby_map(old(st)@[j].volby).insert(
                m.id@,
                platne_volby(volby_v_menu(old(st)@[j], m.id@), ids_voleb(m@)),
            ),
        forall|j: int| 0 <= j < old(st)@.len() && !zapsan(#[trigger] old(st)@[j], *m) ==> final(st)@[j] == old(st)@[j],
{
    let ghost st0 = st@;
    let mut i: usize = 0;
    while i < st.len()
        invariant
            i <= st@.len(),
            st@.len() == st0.len(),
            volby_platne(st@),
            forall|j: int| 0 <= j < st0.len() ==> jen_volby(#[trigger] st0[j], st@[j]),
            forall|j: int|
                0 <= j < i && zapsan(#[trigger] st0[j], *m) ==> volby_map(st@[j].volby) == volby_map(
                    st0[j].volby,
                ).insert(m.id@, platne_volby(volby_v_menu(st0[j], m.id@), ids_voleb(m@))),
            forall|j: int| 0 <= j < st0.len() && (j >= i || !zapsan(st0[j], *m)) ==> #[trigger] st@[j] == st0[j],
        decreases st@.len() - i,
    {
        let ghost s0 = st@;
        if st[i].v_rozvrhu() && obsahuje(&m.tridy, st[i].trida.as_str()) {
            assert(st@[i as int] == st0[i as int]);
            assert(s0[i as int].volby.dobre());
            prefiltruj(&mut st[i], m);
            proof {
                assert(st@ == s0.update(i as int, st@[i as int]));
                assert forall|j: int| 0 <= j < st@.len() implies (#[trigger] st@[j]).volby.dobre() by {
                    if j != i {
                        assert(s0[j].volby.dobre());
                    }
                }
                assert(zapsan(st0[i as int], *m));
            }
        } else {
            proof {
                assert(!zapsan(st0[i as int], *m));
            }
        }
        i = i + 1;
    }
}

/// Všem žákům odstraní záznamy s prázdným seznamem voleb.
fn odstran_prazdne_vsem(st: &mut Vec<Student>)
    requires
        volby_platne(old(st)@),
    ensures
        final(st)@.len() == old(st)@.len(),
        volby_platne(final(st)@),
        forall|j: int| 0 <= j < old(st)@.len() ==> jen_volby(#[trigger] old(st)@[j], final(st)@[j]),
        forall|j: int|
            0 <= j < old(st)@.len() ==> volby_map(#[trigger] final(st)@[j].volby) == bez_prazdnych(
                volby_map(old(st)@[j].volby),
            ),
{
    let ghost st0 = st@;
    let mut i: usize = 0;
    while i < st.len()
        invariant
            i <= st@.len(),
            st@.len() == st0.len(),
            volby_platne(st@),
            forall|j: int| 0 <= j < st0.len() ==> jen_volby(#[trigger] st0[j], st@[j]),
            forall|j: int| 0 <= j < i ==> volby_map(#[trigger] st@[j].volby) == bez_prazdnych(volby_map(st0[j].volby)),
            forall|j: int| i <= j < st0.len() ==> #[trigger] st@[j] == st0[j],
        decreases st@.len() - i,
    {
        let ghost s0 = st@;
        assert(s0[i as int].volby.dobre());
        crate::rok::odstran_prazdne(&mut st[i].volby);
        proof {
            assert forall|j: int| 0 <= j < st@.len() implies (#[trigger] st@[j]).volby.dobre() by {
                if j != i {
                    assert(s0[j].volby.dobre());
                }
            }
            assert(st@[i as int]@ == StudentV { volby: st@[i as int]@.volby, ..st0[i as int]@ });
            assert forall|j: int| 0 <= j < st0.len() implies jen_volby(#[trigger] st0[j], st@[j]) by {
                if j != i {
                    assert(jen_volby(st0[j], s0[j]));
                }
            }
        }
        i = i + 1;
    }
}

/// Počet bloků voleb menu: `pocet_voleb` (aspoň 1), nejvýš počet voleb.
pub open spec fn pocet_bloku(m: Menu) -> int {
    let pv: int = if m.pocet_voleb < 1 {
        1
    } else {
        m.pocet_voleb as int
    };
    if pv < m.volby@.len() {
        pv
    } else {
        m.volby@.len() as int
    }
}

/// Blok `b` (volby s indexem `j`, `j mod pocet_bloku(m) == b`) pro žáka se seznamem voleb `l`:
/// žák některou jeho volbu má, nebo mají všechny volby bloku kapacitu a jsou plné.
pub open spec fn blok_ma_nebo_plny(st: Seq<Student>, m: Menu, l: Seq<Seq<char>>, b: int) -> bool {
    ||| exists|j: int| 0 <= j < m.volby@.len() && j % pocet_bloku(m) == b && l.contains(#[trigger] m.volby@[j].id@)
    ||| forall|j: int|
        0 <= j < m.volby@.len() && j % pocet_bloku(m) == b ==> match (#[trigger] m.volby@[j]).kapacita {
            Some(c) => obsazeno(st, m, m.volby@[j].id@) >= c,
            None => false,
        }
}

/// Žák `i` má aspoň `pocet_bloku(m)` voleb menu, nebo má volbu z každého bloku, kde ještě
/// některá volba má volné místo.
pub open spec fn doplnen_zak(st: Seq<Student>, m: Menu, i: int) -> bool {
    ||| volby_v_menu(st[i], m.id@).len() >= pocet_bloku(m)
    ||| forall|b: int| 0 <= b < pocet_bloku(m) ==> #[trigger] blok_ma_nebo_plny(st, m, volby_v_menu(st[i], m.id@), b)
}

/// Žák se seznamem `l` má aspoň `k` voleb, nebo má všechny bloky vyřešené.
pub open spec fn vyresen_zak(m: Menu, bloky: Seq<Vec<usize>>, k: int, l: Seq<Seq<char>>, obs: Mapa<usize>) -> bool {
    ||| l.len() >= k
    ||| forall|b: int| 0 <= b < bloky.len() ==> #[trigger] blok_vyresen(m, bloky, l, obs, b)
}

/// Výsledek doplnění voleb menu `m` (žáci před `st0`, po `st`, přidáno `r` voleb):
/// - žáci zůstanou tíž, mění se jen jejich volby, mapy voleb zůstanou dobře utvořené;
/// - zapsaní žáci mají v menu jen nabízené volby, dřívější nabízené volby na začátku
///   seznamu v původním pořadí, přidané za nimi;
/// - v ostatních menu a u nezapsaných žáků jen zmizí prázdné seznamy;
/// - žádný seznam voleb není prázdný;
/// - žák nedostane víc voleb, než kolik bloků menu má (pokud už jich víc neměl);
/// - `r` je počet přidaných voleb;
/// - přidáváním se nepřekročí kapacita volby (mají-li volby různá id);
/// - každý zapsaný žák, který nemá `pocet_bloku(m)` voleb, má volbu z každého bloku, v němž
///   nejsou všechny volby plné.
pub open spec fn doplneno(st0: Seq<Student>, st: Seq<Student>, m: Menu, r: int) -> bool {
    &&& st.len() == st0.len()
    &&& volby_platne(st)
    &&& forall|i: int| 0 <= i < st.len() ==> jen_volby(#[trigger] st0[i], st[i])
    &&& forall|i: int|
        0 <= i < st.len() && zapsan(#[trigger] st[i], m) ==> forall|q: int|
            0 <= q < volby_v_menu(st[i], m.id@).len() ==> ids_voleb(m@).contains(
                #[trigger] volby_v_menu(st[i], m.id@)[q],
            )
    &&& forall|i: int|
        0 <= i < st.len() && zapsan(#[trigger] st0[i], m) ==> volby_v_menu(st[i], m.id@).take(
            platne_volby(volby_v_menu(st0[i], m.id@), ids_voleb(m@)).len() as int,
        ) == platne_volby(volby_v_menu(st0[i], m.id@), ids_voleb(m@))
    &&& forall|i: int|
        0 <= i < st.len() ==> volby_map((#[trigger] st[i]).volby).remove(m.id@) == bez_prazdnych(
            volby_map(st0[i].volby),
        ).remove(m.id@)
    &&& forall|i: int|
        0 <= i < st.len() && !zapsan(#[trigger] st0[i], m) ==> volby_map(st[i].volby) == bez_prazdnych(
            volby_map(st0[i].volby),
        )
    &&& forall|i: int, x: Seq<char>|
        #![trigger volby_map(st[i].volby).contains_key(x)]
        0 <= i < st.len() && volby_map(st[i].volby).contains_key(x) ==> volby_map(
            st[i].volby,
        )[x].len() > 0
    &&& forall|i: int|
        0 <= i < st.len() && zapsan(#[trigger] st0[i], m) ==> volby_v_menu(st[i], m.id@).len() <= vetsi(
            platne_volby(volby_v_menu(st0[i], m.id@), ids_voleb(m@)).len() as int,
            pocet_bloku(m),
        )
    &&& r + zapsane_platne(st0, m) == zapsane(st, m)
    &&& ruzna_id(m) ==> forall|j: int|
        0 <= j < m.volby@.len() ==> match (#[trigger] m.volby@[j]).kapacita {
            Some(c) => obsazeno(st, m, m.volby@[j].id@) <= vetsi(obsazeno(st0, m, m.volby@[j].id@) as int, c as int),
            None => true,
        }
    &&& forall|i: int| 0 <= i < st.len() && zapsan(#[trigger] st0[i], m) ==> doplnen_zak(st, m, i)
}

/// Vyřešený žák (podle bloků a počítadel odpovídajících obsazenosti) je doplněný.
proof fn lemma_vyresen_doplnen(
    st: Seq<Student>,
    m: Menu,
    bloky: Seq<Vec<usize>>,
    obs: Mapa<usize>,
    i: int,
)
    requires
        0 <= i < st.len(),
        bloky.len() == pocet_bloku(m),
        pocet_bloku(m) >= 1,
        m.volby@.len() <= usize::MAX,
        forall|x: int, y: int| 0 <= x < bloky.len() && 0 <= y < bloky[x]@.len() ==> #[trigger] bloky[x]@[y] < m.volby@.len(),
        forall|x: int, y: int| 0 <= x < bloky.len() && 0 <= y < bloky[x]@.len() ==> (#[trigger] bloky[x]@[y]) as int % pocet_bloku(m) == x,
        forall|x: int, vi: usize|
            0 <= x < bloky.len() && vi < m.volby@.len() && vi as int % pocet_bloku(m) == x ==> #[trigger] bloky[x]@.contains(vi),
        forall|j: int| 0 <= j < m.volby@.len() ==> obs.hodnota(#[trigger] m.volby@[j].id@) == obsazeno(st, m, m.volby@[j].id@),
        vyresen_zak(m, bloky, pocet_bloku(m), volby_v_menu(st[i], m.id@), obs),
    ensures
        doplnen_zak(st, m, i),
{
    let l = volby_v_menu(st[i], m.id@);
    let k = pocet_bloku(m);
    if l.len() < k {
        assert forall|b: int| 0 <= b < k implies #[trigger] blok_ma_nebo_plny(st, m, l, b) by {
            assert(blok_vyresen(m, bloky, l, obs, b));
            if exists|y: int| 0 <= y < bloky[b]@.len() && l.contains(#[trigger] m.volby@[bloky[b]@[y] as int].id@) {
                let y = choose|y: int| 0 <= y < bloky[b]@.len() && l.contains(#[trigger] m.volby@[bloky[b]@[y] as int].id@);
                let j = bloky[b]@[y] as int;
                assert(j % k == b);
                assert(l.contains(m.volby@[j].id@));
            } else {
                assert forall|j: int| 0 <= j < m.volby@.len() && j % k == b implies match (#[trigger] m.volby@[j]).kapacita {
                    Some(c) => obsazeno(st, m, m.volby@[j].id@) >= c,
                    None => false,
                } by {
                    assert((j as usize) as int == j);
                    assert(bloky[b]@.contains(j as usize));
                    let y = choose|y: int| 0 <= y < bloky[b]@.len() && bloky[b]@[y] == j as usize;
                    assert(!volne_misto(m, obs, bloky[b]@[y] as int));
                    assert(obs.hodnota(m.volby@[j].id@) == obsazeno(st, m, m.volby@[j].id@));
                }
            }
        }
    }
}

proof fn lemma_kapacity_tranzitivni(m: Menu, a: Mapa<usize>, b: Mapa<usize>, c: Mapa<usize>)
    requires
        kapacity_drzi(m, a, b),
        kapacity_drzi(m, b, c),
    ensures
        kapacity_drzi(m, a, c),
{
    assert forall|j: int| 0 <= j < m.volby@.len() implies match (#[trigger] m.volby@[j]).kapacita {
        Some(k) => a.hodnota(m.volby@[j].id@) <= vetsi(c.hodnota(m.volby@[j].id@) as int, k as int),
        None => true,
    } by {
        match m.volby@[j].kapacita {
            Some(k) => {},
            None => {},
        }
    }
}

proof fn lemma_bez_prazdnych_mimo(x: Map<Seq<char>, Seq<Seq<char>>>, k: Seq<char>, v: Seq<Seq<char>>)
    ensures
        bez_prazdnych(x.insert(k, v)).remove(k) == bez_prazdnych(x).remove(k),
{
    assert(bez_prazdnych(x.insert(k, v)).remove(k) =~= bez_prazdnych(x).remove(k));
}

/// Žák `s` má v menu volby žáka `s1` a za nimi další nabízené volby; jinak se neliší.
pub open spec fn rozsireno(s1: Student, s: Student, m: Menu) -> bool {
    &&& s.volby.ma(m.id@)
    &&& volby_map(s.volby) == volby_map(s1.volby).insert(m.id@, volby_v_menu(s, m.id@))
    &&& volby_v_menu(s1, m.id@).len() <= volby_v_menu(s, m.id@).len()
    &&& volby_v_menu(s, m.id@).take(volby_v_menu(s1, m.id@).len() as int) == volby_v_menu(s1, m.id@)
    &&& forall|q: int|
        0 <= q < volby_v_menu(s, m.id@).len() ==> ids_voleb(m@).contains(#[trigger] volby_v_menu(s, m.id@)[q])
}

proof fn lemma_rozsireno_krok(s1: Student, s: Student, s2: Student, m: Menu)
    requires
        rozsireno(s1, s, m),
        s2.volby.dobre(),
        volby_v_menu(s2, m.id@).len() >= volby_v_menu(s, m.id@).len(),
        volby_v_menu(s2, m.id@).take(volby_v_menu(s, m.id@).len() as int) == volby_v_menu(s, m.id@),
        forall|q: int|
            0 <= q < volby_v_menu(s2, m.id@).len() ==> ids_voleb(m@).contains(#[trigger] volby_v_menu(s2, m.id@)[q]),
        volby_map(s2.volby) == volby_map(s.volby).insert(m.id@, volby_v_menu(s2, m.id@)),
    ensures
        rozsireno(s1, s2, m),
{
    let a = volby_v_menu(s1, m.id@);
    let b = volby_v_menu(s, m.id@);
    let c = volby_v_menu(s2, m.id@);
    assert(volby_map(s2.volby).contains_key(m.id@));
    assert(volby_map(s2.volby) =~= volby_map(s1.volby).insert(m.id@, c));
    assert(c.take(a.len() as int) =~= b.take(a.len() as int)) by {
        assert forall|q: int| 0 <= q < a.len() implies c[q] == b[q] by {
            assert(c.take(b.len() as int)[q] == c[q]);
        }
    }
}

/// Doplní chybějící volby menu `menu_id`: volby se rozdělí do `pocet_voleb` bloků
/// (volba `i` do bloku `i mod k`) a každý zapsaný žák (v náhodném pořadí podle `seed`)
/// dostane z každého bloku, z něhož ještě nic nemá, nejméně obsazenou volbu s volným
/// místem, dokud nemá `pocet_voleb` voleb. Neplatné volby se zahodí, prázdné seznamy
/// zmizí. Vrací počet přidaných voleb (0, pokud menu neexistuje nebo nemá volby).
pub fn doplnit_volby(rok: &mut SkolniRok, menu_id: &str, seed: u64) -> (r: usize)
    requires
        volby_platne(old(rok).studenti@),
        celkem_voleb(old(rok).studenti@, menu_id@) + 255 * old(rok).studenti@.len() + 255 < usize::MAX,
    ensures
        final(rok).menu@ == old(rok).menu@,
        final(rok).label == old(rok).label,
        final(rok).dalsi_id == old(rok).dalsi_id,
        index_menu(old(rok).menu@, menu_id@) == -1 ==> r == 0 && final(rok).studenti@ == old(rok).studenti@,
        index_menu(old(rok).menu@, menu_id@) >= 0 && old(rok).menu@[index_menu(
            old(rok).menu@,
            menu_id@,
        )].volby@.len() == 0 ==> r == 0 && final(rok).studenti@ == old(rok).studenti@,
        index_menu(old(rok).menu@, menu_id@) >= 0 && old(rok).menu@[index_menu(
            old(rok).menu@,
            menu_id@,
        )].volby@.len() > 0 ==> doplneno(
            old(rok).studenti@,
            final(rok).studenti@,
            old(rok).menu@[index_menu(old(rok).menu@, menu_id@)],
            r as int,
        ),
{
    let mi = match najdi_menu(&rok.menu, menu_id) {
        Some(i) => i,
        None => {
            return 0;
        },
    };
    let n = rok.menu[mi].volby.len();
    if n == 0 {
        return 0;
    }
    let ghost m = rok.menu@[mi as int];
    let ghost st0 = rok.studenti@;
    proof {
        crate::hledani::lemma_prvni(rok.menu@, |x: Menu| x.id@ == menu_id@);
        assert(m.id@ == menu_id@);
        lemma_ids_voleb(m);
    }
    let pv = rok.menu[mi].pocet_voleb as usize;
    let k0: usize = if pv < 1 {
        1
    } else {
        pv
    };
    let k: usize = if k0 < n {
        k0
    } else {
        n
    };
    let bloky = bloky_voleb(n, k);
    let mut obs = obsazenost(rok, &rok.menu[mi]);
    let ghost obs0 = obs;
    let ghost c0 = celkem_voleb(st0, menu_id@);
    proof {
        assert forall|x: Seq<char>| obs.ma(x) <==> ids_voleb(m@).contains(x) by {
            if obs.ma(x) {
                let j = choose|j: int| 0 <= j < m.volby@.len() && (#[trigger] m.volby@[j]).id@ == x;
                assert(ids_voleb(m@)[j] == x);
            }
            if ids_voleb(m@).contains(x) {
                let j = choose|j: int| 0 <= j < ids_voleb(m@).len() && ids_voleb(m@)[j] == x;
                assert(m.volby@[j].id@ == x);
            }
        }
        assert forall|x: Seq<char>| obs.ma(x) implies obs.hodnota(x) <= c0 by {
            crate::rok::lemma_obsazeno_mez(st0, m, x);
        }
    }
    let mut rng = rng_ze_semene(seed);
    let mut poradi: Vec<usize> = Vec::new();
    let mut i: usize = 0;
    while i < rok.studenti.len()
        invariant
            i <= rok.studenti@.len(),
            rok.studenti@ == st0,
            rok.menu@[mi as int] == m,
            mi < rok.menu@.len(),
            poradi@.len() <= i,
            forall|q: int| 0 <= q < poradi@.len() ==> #[trigger] poradi@[q] < st0.len() && zapsan(st0[poradi@[q] as int], m),
            forall|j: int| 0 <= j < i && zapsan(#[trigger] st0[j], m) ==> poradi@.contains(j as usize),
        decreases rok.studenti@.len() - i,
    {
        let ghost pp = poradi@;
        if rok.studenti[i].v_rozvrhu() && obsahuje(&rok.menu[mi].tridy, rok.studenti[i].trida.as_str()) {
            poradi.push(i);
            proof {
                assert(poradi@[pp.len() as int] == i);
            }
        }
        proof {
            assert forall|j: int| 0 <= j < i + 1 && zapsan(#[trigger] st0[j], m) implies poradi@.contains(j as usize) by {
                if j < i {
                    let q = choose|q: int| 0 <= q < pp.len() && pp[q] == j as usize;
                    assert(poradi@[q] == j as usize);
                }
            }
        }
        i = i + 1;
    }
    let ghost p0 = poradi@;
    zamichej(&mut poradi, &mut rng);
    proof {
        let p = |x: usize| x < st0.len() && zapsan(st0[x as int], m);
        assert forall|q: int| 0 <= q < p0.len() implies p(#[trigger] p0[q]) by {}
        lemma_permutace_zachova(p0, poradi@, p);
        assert forall|q: int| 0 <= q < poradi@.len() implies #[trigger] poradi@[q] < st0.len() && zapsan(st0[poradi@[q] as int], m) by {
            assert(p(poradi@[q]));
        }
        broadcast use vstd::seq_lib::group_to_multiset_ensures;
        assert forall|j: int| 0 <= j < st0.len() && zapsan(#[trigger] st0[j], m) implies poradi@.contains(j as usize) by {
            assert(p0.contains(j as usize));
            assert(p0.to_multiset().count(j as usize) > 0);
        }
    }
    prefiltruj_zapsane(&mut rok.studenti, &rok.menu[mi]);
    let ghost st1 = rok.studenti@;
    proof {
        assert forall|j: int| 0 <= j < st0.len() implies zapsan(#[trigger] st1[j], m) == zapsan(st0[j], m) && (
        zapsan(st0[j], m) ==> volby_v_menu(st1[j], m.id@) == platne_volby(volby_v_menu(st0[j], m.id@), ids_voleb(m@))
            && st1[j].volby.ma(m.id@)) by {
            assert(jen_volby(st0[j], st1[j]));
            assert(st0[j]@.trida == st1[j]@.trida);
            if zapsan(st0[j], m) {
                lemma_volby_v_menu(st1[j], m.id@);
            }
        }
        assert forall|x: Seq<char>| ids_voleb(m@).contains(x) implies obsazeno(st1, m, x) == obsazeno(st0, m, x) && zapsane(st1, m) == zapsane_platne(st0, m) by {
            lemma_po_filtru(st0, st1, m, x);
        }
        assert(zapsane(st1, m) == zapsane_platne(st0, m)) by {
            lemma_po_filtru(st0, st1, m, m.volby@[0].id@);
        }
        assert forall|j: int| 0 <= j < st1.len() && zapsan(#[trigger] st1[j], m) implies rozsireno(st1[j], st1[j], m) by {
            lemma_platne_jsou_platne(volby_v_menu(st0[j], m.id@), ids_voleb(m@));
            lemma_volby_v_menu(st1[j], m.id@);
            assert(volby_map(st1[j].volby) =~= volby_map(st1[j].volby).insert(m.id@, volby_v_menu(st1[j], m.id@)));
            assert(volby_v_menu(st1[j], m.id@).take(volby_v_menu(st1[j], m.id@).len() as int) =~= volby_v_menu(st1[j], m.id@));
        }
    }
    let mut pocet: usize = 0;
    let mut t: usize = 0;
    while t < poradi.len()
        invariant
            t <= poradi@.len(),
            poradi@.len() <= st0.len(),
            1 <= k <= 255,
            mi < rok.menu@.len(),
            rok.menu@[mi as int] == m,
            rok.menu@ == old(rok).menu@,
            rok.label == old(rok).label,
            rok.dalsi_id == old(rok).dalsi_id,
            m.volby@.len() == n,
            ids_voleb(m@).len() == m.volby@.len(),
            forall|j: int| 0 <= j < m.volby@.len() ==> #[trigger] ids_voleb(m@)[j] == m.volby@[j].id@,
            forall|x: int, y: int|
                0 <= x < bloky@.len() && 0 <= y < bloky@[x]@.len() ==> #[trigger] bloky@[x]@[y] < n,
            forall|q: int| 0 <= q < poradi@.len() ==> #[trigger] poradi@[q] < st0.len() && zapsan(st0[poradi@[q] as int], m),
            st1.len() == st0.len(),
            rok.studenti@.len() == st0.len(),
            volby_platne(rok.studenti@),
            forall|j: int| 0 <= j < st0.len() ==> zapsan(#[trigger] st1[j], m) == zapsan(st0[j], m),
            forall|j: int| 0 <= j < st0.len() ==> jen_volby(#[trigger] st1[j], rok.studenti@[j]),
            forall|j: int| 0 <= j < st0.len() && !zapsan(#[trigger] st1[j], m) ==> rok.studenti@[j] == st1[j],
            forall|j: int| 0 <= j < st0.len() && zapsan(#[trigger] st1[j], m) ==> rozsireno(st1[j], rok.studenti@[j], m),
            forall|j: int|
                0 <= j < st0.len() && zapsan(#[trigger] st1[j], m) ==> volby_v_menu(rok.studenti@[j], m.id@).len()
                    <= vetsi(volby_v_menu(st1[j], m.id@).len() as int, k as int),
            k == pocet_bloku(m),
            obs.dobre(),
            forall|x: Seq<char>| obs.ma(x) <==> ids_voleb(m@).contains(x),
            forall|x: Seq<char>| obs.ma(x) ==> obs.hodnota(x) == obsazeno(rok.studenti@, m, x),
            forall|x: Seq<char>| obs.ma(x) ==> obs.hodnota(x) <= c0 + pocet,
            c0 + 255 * st0.len() + 255 < usize::MAX,
            pocet <= 255 * t,
            pocet + zapsane(st1, m) == zapsane(rok.studenti@, m),
            obs0.dobre(),
            forall|x: Seq<char>| obs0.ma(x) <==> ids_voleb(m@).contains(x),
            forall|x: Seq<char>| obs0.ma(x) ==> obs0.hodnota(x) == obsazeno(st0, m, x),
            ruzna_id(m) ==> kapacity_drzi(m, obs, obs0),
            bloky@.len() == k,
            forall|x: int, y: int| 0 <= x < bloky@.len() && 0 <= y < bloky@[x]@.len() ==> (#[trigger] bloky@[x]@[y]) % k == x,
            forall|x: int, vi: usize| 0 <= x < bloky@.len() && vi < n && vi % k == x ==> #[trigger] bloky@[x]@.contains(vi),
            forall|j: int| 0 <= j < st0.len() && zapsan(#[trigger] st0[j], m) ==> poradi@.contains(j as usize),
            forall|q: int|
                0 <= q < t ==> vyresen_zak(m, bloky@, k as int, volby_v_menu(rok.studenti@[(#[trigger] poradi@[q]) as int], m.id@), obs),
        decreases poradi@.len() - t,
    {
        let i = poradi[t];
        let ghost cur = rok.studenti@;
        let ghost obs_b = obs;
        proof {
            assert(zapsan(st0[i as int], m));
            assert(zapsan(st1[i as int], m));
            assert(cur[i as int].volby.dobre());
            assert(jen_volby(st1[i as int], cur[i as int]));
            assert(zapsan(cur[i as int], m));
        }
        let ri = pridej_zakovi(&mut rok.studenti[i], &rok.menu[mi], &bloky, k, &mut obs, &mut rng);
        proof {
            let s1 = rok.studenti@[i as int];
            let o = volby_v_menu(cur[i as int], m.id@);
            let p = volby_v_menu(s1, m.id@);
            assert(rok.studenti@ == cur.update(i as int, s1));
            assert(p =~= o + p.skip(o.len() as int));
            assert(zapsan(s1, m));
            assert forall|x: Seq<char>| obs.ma(x) implies obs.hodnota(x) == obsazeno(rok.studenti@, m, x) by {
                lemma_zmena_zaka(cur, i as int, s1, m, x);
                lemma_pocet_spojeni(o, p.skip(o.len() as int), x);
            }
            lemma_zmena_zaka(cur, i as int, s1, m, m.id@);
            assert forall|x: Seq<char>| obs.ma(x) implies obs.hodnota(x) <= c0 + pocet + ri by {
                crate::rok::lemma_pocet_v_mez(p.skip(o.len() as int), x);
            }
            if ruzna_id(m) {
                lemma_kapacity_tranzitivni(m, obs, obs_b, obs0);
            }
            assert forall|j: int| 0 <= j < st0.len() implies jen_volby(#[trigger] st1[j], rok.studenti@[j]) by {
                if j != i {
                    assert(jen_volby(st1[j], cur[j]));
                }
            }
            assert forall|j: int| 0 <= j < st0.len() && !zapsan(#[trigger] st1[j], m) implies rok.studenti@[j] == st1[j] by {
                assert(j != i);
            }
            lemma_rozsireno_krok(st1[i as int], cur[i as int], s1, m);
            assert forall|j: int|
                0 <= j < st0.len() && zapsan(#[trigger] st1[j], m) implies volby_v_menu(rok.studenti@[j], m.id@).len()
                    <= vetsi(volby_v_menu(st1[j], m.id@).len() as int, k as int) by {
                if j != i {
                    assert(rok.studenti@[j] == cur[j]);
                }
            }
            assert forall|j: int| 0 <= j < st0.len() && zapsan(#[trigger] st1[j], m) implies rozsireno(st1[j], rok.studenti@[j], m) by {
                if j != i {
                    assert(rozsireno(st1[j], cur[j], m));
                }
            }
            assert forall|j: int| 0 <= j < rok.studenti@.len() implies (#[trigger] rok.studenti@[j]).volby.dobre() by {
                if j != i {
                    assert(cur[j].volby.dobre());
                }
            }
            assert forall|q: int|
                0 <= q < t + 1 implies vyresen_zak(m, bloky@, k as int, volby_v_menu(rok.studenti@[(#[trigger] poradi@[q]) as int], m.id@), obs) by {
                if poradi@[q] != i {
                    let l = volby_v_menu(cur[poradi@[q] as int], m.id@);
                    assert(rok.studenti@[poradi@[q] as int] == cur[poradi@[q] as int]);
                    assert(vyresen_zak(m, bloky@, k as int, l, obs_b));
                    assert(jen_pribyva(m, l, obs_b, l, obs)) by {
                        assert forall|j: int| 0 <= j < m.volby@.len() implies obs.hodnota(#[trigger] m.volby@[j].id@) >= obs_b.hodnota(m.volby@[j].id@) by {
                            assert(ids_voleb(m@)[j] == m.volby@[j].id@);
                            assert(obs_b.ma(m.volby@[j].id@));
                        }
                    }
                    if l.len() < k {
                        assert forall|bb: int| 0 <= bb < bloky@.len() implies #[trigger] blok_vyresen(m, bloky@, l, obs, bb) by {
                            assert(blok_vyresen(m, bloky@, l, obs_b, bb));
                            lemma_blok_vyresen_trva(m, bloky@, l, obs_b, l, obs, bb);
                        }
                    }
                }
            }
        }
        pocet = pocet + ri;
        t = t + 1;
    }
    let ghost st2 = rok.studenti@;
    odstran_prazdne_vsem(&mut rok.studenti);
    proof {
        let st3 = rok.studenti@;
        assert forall|j: int| 0 <= j < st0.len() implies zapsan(#[trigger] st3[j], m) == zapsan(st2[j], m)
            && volby_v_menu(st3[j], m.id@) == volby_v_menu(st2[j], m.id@) by {
            assert(jen_volby(st2[j], st3[j]));
            lemma_volby_v_menu(st3[j], m.id@);
            lemma_volby_v_menu(st2[j], m.id@);
        }
        assert forall|x: Seq<char>| obs.ma(x) implies obs.hodnota(x) == obsazeno(st3, m, x) by {
            lemma_stejne_volby(st2, st3, m, x);
        }
        lemma_stejne_volby(st2, st3, m, m.id@);
        assert forall|i2: int| 0 <= i2 < st3.len() implies jen_volby(#[trigger] st0[i2], st3[i2]) by {
            assert(jen_volby(st0[i2], st1[i2]));
            assert(jen_volby(st1[i2], st2[i2]));
            assert(jen_volby(st2[i2], st3[i2]));
        }
        assert forall|i2: int| 0 <= i2 < st3.len() && zapsan(#[trigger] st3[i2], m) implies forall|q: int|
            0 <= q < volby_v_menu(st3[i2], m.id@).len() ==> ids_voleb(m@).contains(
                #[trigger] volby_v_menu(st3[i2], m.id@)[q],
            ) by {
            assert(zapsan(st1[i2], m));
            assert(rozsireno(st1[i2], st2[i2], m));
        }
        assert forall|i2: int| 0 <= i2 < st3.len() && zapsan(#[trigger] st0[i2], m) implies volby_v_menu(
            st3[i2],
            m.id@,
        ).take(platne_volby(volby_v_menu(st0[i2], m.id@), ids_voleb(m@)).len() as int) == platne_volby(
            volby_v_menu(st0[i2], m.id@),
            ids_voleb(m@),
        ) by {
            assert(zapsan(st1[i2], m));
            assert(rozsireno(st1[i2], st2[i2], m));
        }
        assert forall|i2: int|
            0 <= i2 < st3.len() && zapsan(#[trigger] st0[i2], m) implies volby_v_menu(st3[i2], m.id@).len() <= vetsi(
            platne_volby(volby_v_menu(st0[i2], m.id@), ids_voleb(m@)).len() as int,
            pocet_bloku(m),
        ) by {
            assert(zapsan(st1[i2], m));
        }
        assert forall|i2: int| 0 <= i2 < st3.len() implies volby_map((#[trigger] st3[i2]).volby).remove(m.id@)
            == bez_prazdnych(volby_map(st0[i2].volby)).remove(m.id@) by {
            if zapsan(st0[i2], m) {
                assert(zapsan(st1[i2], m));
                assert(rozsireno(st1[i2], st2[i2], m));
                let a = volby_map(st0[i2].volby);
                let b = volby_map(st1[i2].volby);
                lemma_bez_prazdnych_mimo(b, m.id@, volby_v_menu(st2[i2], m.id@));
                lemma_bez_prazdnych_mimo(a, m.id@, platne_volby(volby_v_menu(st0[i2], m.id@), ids_voleb(m@)));
                assert(bez_prazdnych(b).remove(m.id@) =~= bez_prazdnych(a).remove(m.id@));
            } else {
                assert(!zapsan(st1[i2], m));
                assert(st2[i2] == st1[i2]);
                assert(st1[i2] == st0[i2]);
            }
        }
        assert forall|i2: int| 0 <= i2 < st3.len() && !zapsan(#[trigger] st0[i2], m) implies volby_map(st3[i2].volby)
            == bez_prazdnych(volby_map(st0[i2].volby)) by {
            assert(!zapsan(st1[i2], m));
            assert(st2[i2] == st1[i2]);
            assert(st1[i2] == st0[i2]);
        }
        assert forall|i2: int, x: Seq<char>|
            #![trigger volby_map(st3[i2].volby).contains_key(x)]
            0 <= i2 < st3.len() && volby_map(st3[i2].volby).contains_key(x) implies volby_map(
            st3[i2].volby,
        )[x].len() > 0 by {
            assert(volby_map(st3[i2].volby) == bez_prazdnych(volby_map(st2[i2].volby)));
        }
        assert forall|i2: int| 0 <= i2 < st3.len() && zapsan(#[trigger] st0[i2], m) implies doplnen_zak(st3, m, i2) by {
            assert(poradi@.contains(i2 as usize));
            let q = choose|q: int| 0 <= q < poradi@.len() && poradi@[q] == i2 as usize;
            assert(vyresen_zak(m, bloky@, k as int, volby_v_menu(st2[poradi@[q] as int], m.id@), obs));
            assert forall|j: int| 0 <= j < m.volby@.len() implies obs.hodnota(#[trigger] m.volby@[j].id@) == obsazeno(st3, m, m.volby@[j].id@) by {
                assert(ids_voleb(m@)[j] == m.volby@[j].id@);
                assert(obs.ma(m.volby@[j].id@));
            }
            lemma_vyresen_doplnen(st3, m, bloky@, obs, i2);
        }
        if ruzna_id(m) {
            assert forall|j: int| 0 <= j < m.volby@.len() implies match (#[trigger] m.volby@[j]).kapacita {
                Some(c) => obsazeno(st3, m, m.volby@[j].id@) <= vetsi(obsazeno(st0, m, m.volby@[j].id@) as int, c as int),
                None => true,
            } by {
                assert(ids_voleb(m@)[j] == m.volby@[j].id@);
                assert(obs.ma(m.volby@[j].id@));
            }
        }
    }
    pocet
}

/// Mapy se stejným pohledem na volby mají stejné volby.
pub proof fn lemma_stejne_volby_zaka(a: Mapa<Vec<String>>, b: Mapa<Vec<String>>)
    requires
        crate::data::volby_zaka(a) == crate::data::volby_zaka(b),
    ensures
        a.dobre() == b.dobre(),
        a.dobre() ==> volby_map(a) == volby_map(b),
{
    let va = crate::data::volby_zaka(a);
    let vb = crate::data::volby_zaka(b);
    assert(a.polozky@.len() == va.len());
    assert(b.polozky@.len() == vb.len());
    assert forall|i: int| 0 <= i < a.polozky@.len() implies (#[trigger] a.polozky@[i]).0@ == b.polozky@[i].0@
        && retezce(a.polozky@[i].1@) == retezce(b.polozky@[i].1@) by {
        assert(va[i] == vb[i]);
    }
    assert(a.klice() =~= b.klice());
    if a.dobre() {
        assert forall|k: Seq<char>| a.ma(k) <==> b.ma(k) by {
            if a.ma(k) {
                let i = choose|i: int| 0 <= i < a.polozky@.len() && #[trigger] a.polozky@[i].0@ == k;
                assert(b.polozky@[i].0@ == k);
            }
            if b.ma(k) {
                let i = choose|i: int| 0 <= i < b.polozky@.len() && #[trigger] b.polozky@[i].0@ == k;
                assert(a.polozky@[i].0@ == k);
            }
        }
        assert forall|k: Seq<char>| a.ma(k) implies retezce(a.hodnota(k)@) == retezce(b.hodnota(k)@) by {
            let i = choose|i: int| 0 <= i < a.polozky@.len() && #[trigger] a.polozky@[i].0@ == k;
            a.lemma_jednoznacne(i, k);
            b.lemma_jednoznacne(i, k);
        }
        assert(volby_map(a) =~= volby_map(b));
    }
}

} // verus!
