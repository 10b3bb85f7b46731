//! Fáze řešiče: hladový start, simulované žíhání a slepování bloků s dočištěním.

use crate::data::{DNY, N_SLOTU, SLOTU};
use crate::hodiny::{ms_od, ted, zapis_prubeh};
use crate::model::{omez, s_add, s_mul, Model};
use crate::nahoda::{nahodne_pod, nahodne_u32, sance, zamichej};
use crate::solver::{Prubeh, NENI};
use crate::stav::{lemma_stejny_dobry, pocet_povolenych, povoleny, stejny, Stav, H};
use rand::rngs::StdRng;
use std::sync::atomic::AtomicBool;
use std::sync::Mutex;
use std::time::Instant;
use vstd::prelude::*;

verus! {

/// Tabulka `e^{-n}` krát `2^32` (zaokrouhleno) pro celá `n`.
pub open spec fn exp_tabulka(n: int) -> int {
    if n == 0 { 4294967296int } else if n == 1 { 1580030169 } else if n == 2 { 581260615 } else if n == 3 { 213833830 }
    else if n == 4 { 78665070 } else if n == 5 { 28939262 } else if n == 6 { 10646160 } else if n == 7 { 3916503 }
    else if n == 8 { 1440801 } else if n == 9 { 530041 } else if n == 10 { 194991 } else if n == 11 { 71733 }
    else if n == 12 { 26389 } else if n == 13 { 9708 } else if n == 14 { 3571 } else if n == 15 { 1314 }
    else if n == 16 { 483 } else if n == 17 { 178 } else if n == 18 { 65 } else if n == 19 { 24 }
    else if n == 20 { 9 } else if n == 21 { 3 } else if n == 22 { 1 } else { 0 }
}

/// `e^{-n}` krát `2^32` (zaokrouhleno).
fn exp_cele(n: u64) -> (r: u64)
    ensures
        r <= 0x1_0000_0000,
        r == exp_tabulka(n as int),
{
    if n == 0 { 4294967296 } else if n == 1 { 1580030169 } else if n == 2 { 581260615 } else if n == 3 { 213833830 }
    else if n == 4 { 78665070 } else if n == 5 { 28939262 } else if n == 6 { 10646160 } else if n == 7 { 3916503 }
    else if n == 8 { 1440801 } else if n == 9 { 530041 } else if n == 10 { 194991 } else if n == 11 { 71733 }
    else if n == 12 { 26389 } else if n == 13 { 9708 } else if n == 14 { 3571 } else if n == 15 { 1314 }
    else if n == 16 { 483 } else if n == 17 { 178 } else if n == 18 { 65 } else if n == 19 { 24 }
    else if n == 20 { 9 } else if n == 21 { 3 } else if n == 22 { 1 } else { 0 }
}

/// Člen a součet Taylorovy řady `e^{-y}` (pevná řádová čárka, krát `2^32`) po `k` členech:
/// člen `c_k = c_{k-1}·y / (k·2^32)`, součet střídavě odečítá (nejméně 0) a přičítá
/// (nejvýš `2^32`).
pub open spec fn taylor(y: int, k: int) -> (int, int)
    decreases k,
{
    if k <= 0 {
        (0x1_0000_0000, 0x1_0000_0000)
    } else {
        let p = taylor(y, k - 1);
        let c = p.0 * y / (k * 0x1_0000_0000);
        let s = if k % 2 == 1 {
            if p.1 > c {
                p.1 - c
            } else {
                0
            }
        } else if p.1 + c > 0x1_0000_0000 {
            0x1_0000_0000
        } else {
            p.1 + c
        };
        (c, s)
    }
}

/// `e^{-x}` krát `2^32` pro `x` krát `2^16`: pro `x ≥ 23` nula, jinak tabulka celé části
/// krát Taylorova řada (osm členů) zlomkové části, děleno `2^32`.
pub open spec fn exp_spec(x: int) -> int {
    let n = x / 65536;
    if n >= 23 {
        0
    } else {
        exp_tabulka(n) * taylor((x % 65536) * 65536, 8).1 / 0x1_0000_0000
    }
}

/// `e^{-x}` krát `2^32` pro `x` v pevné řádové čárce (krát `2^16`): celá část z tabulky,
/// zlomková Taylorovou řadou do osmého řádu.
pub fn exp_minus(x: u64) -> (r: u64)
    ensures
        r <= 0x1_0000_0000,
        r == exp_spec(x as int),
{
    let n = x / 65536;
    if n >= 23 {
        return 0;
    }
    let y: i128 = ((x % 65536) as i128) * 65536;
    let mut clen: i128 = 0x1_0000_0000;
    let mut soucet: i128 = 0x1_0000_0000;
    let mut k: i128 = 1;
    while k <= 8
        invariant
            1 <= k <= 9,
            0 <= y < 0x1_0000_0000,
            0 <= clen <= 0x1_0000_0000,
            0 <= soucet <= 0x1_0000_0000,
            y == (x % 65536) * 65536,
            (clen as int, soucet as int) == taylor(y as int, k - 1),
        decreases 9 - k,
    {
        proof {
            assert(clen * y <= 0x1_0000_0000 * 0x1_0000_0000) by (nonlinear_arith)
                requires
                    0 <= clen <= 0x1_0000_0000,
                    0 <= y < 0x1_0000_0000,
            ;
            assert(clen * y >= 0) by (nonlinear_arith)
                requires
                    0 <= clen,
                    0 <= y,
            ;
        }
        let soucin = clen * y;
        clen = soucin / (k * 0x1_0000_0000);
        proof {
            assert(clen <= soucin / 0x1_0000_0000) by {
                assert(k * 0x1_0000_0000 >= 0x1_0000_0000);
                vstd::arithmetic::div_mod::lemma_div_is_ordered_by_denominator(soucin as int, 0x1_0000_0000int, (k * 0x1_0000_0000) as int);
            }
            assert(soucin / 0x1_0000_0000 <= 0x1_0000_0000) by {
                vstd::arithmetic::div_mod::lemma_div_is_ordered(soucin as int, 0x1_0000_0000_0000_0000int, 0x1_0000_0000int);
            }
        }
        if k % 2 == 1 {
            soucet = if soucet > clen { soucet - clen } else { 0 };
        } else {
            soucet = if soucet + clen > 0x1_0000_0000 { 0x1_0000_0000 } else { soucet + clen };
        }
        k = k + 1;
    }
    let e = exp_cele(n) as i128;
    proof {
        assert(e * soucet <= 0x1_0000_0000 * 0x1_0000_0000) by (nonlinear_arith)
            requires
                0 <= e <= 0x1_0000_0000,
                0 <= soucet <= 0x1_0000_0000,
        ;
        assert(e * soucet >= 0) by (nonlinear_arith)
            requires
                0 <= e,
                0 <= soucet,
        ;
    }
    let r = (e * soucet) / 0x1_0000_0000;
    proof {
        vstd::arithmetic::div_mod::lemma_div_is_ordered((e * soucet) as int, 0x1_0000_0000_0000_0000int, 0x1_0000_0000int);
    }
    r as u64
}

/// Teplota žíhání (krát `2^16`) v podílu `frac` (krát `2^16`) vyhrazeného času:
/// geometricky z 2000 na 10.
pub fn teplota(frac: u64) -> (r: u64)
    requires
        frac <= 65536,
    ensures
        r == 2000 * exp_spec(frac * 347231 / 65536) / 65536,
{
    let x = frac * 347231 / 65536;
    let e = exp_minus(x) as u128;
    (2000 * e / 65536) as u64
}

/// Práh přijetí zhoršení o `delta` při teplotě `t` (krát `2^32`): `e^{-delta/T}`, pro
/// `delta/T ≥ 23` nula; nulová teplota se bere jako 1.
pub open spec fn prah_prijeti(delta: int, t: int) -> int {
    let tt = if t == 0 {
        1
    } else {
        t
    };
    let x = delta * 0x1_0000_0000 / tt;
    if x >= 23 * 65536 {
        0
    } else {
        exp_spec(x)
    }
}

/// Náhodné číslo `n` je pod prahem `p`.
pub open spec fn pod_prahem(n: int, p: int) -> bool {
    n < p
}

/// Přijetí tahu (Metropolis): zlepšení vždy, zhoršení s pravděpodobností `e^{-delta/T}`.
fn prijmi(delta: i64, teplota: u64, rng: &mut StdRng) -> (r: bool)
    ensures
        delta <= 0 ==> r,
        delta > 0 ==> exists|n: int| 0 <= n < 0x1_0000_0000 && r == #[trigger] pod_prahem(n, prah_prijeti(delta as int, teplota as int)),
{
    if delta <= 0 {
        return true;
    }
    let t: u128 = if teplota == 0 { 1 } else { teplota as u128 };
    let x: u128 = (delta as u128) * 0x1_0000_0000 / t;
    let p: u64 = if x >= 23 * 65536 { 0 } else { exp_minus(x as u64) };
    let nahoda = nahodne_u32(rng) as u64;
    proof {
        assert(p == prah_prijeti(delta as int, teplota as int));
        assert(pod_prahem(nahoda as int, prah_prijeti(delta as int, teplota as int)) == (nahoda < p));
    }
    nahoda < p
}

/// Náhodný povolený začátek jednotky.
fn nahodny_start(m: &Model, u: usize, rng: &mut StdRng) -> (r: u8)
    requires
        m.dobry(),
        u < m.n_u,
    ensures
        povoleny(m, u as int, r),
{
    let n = pocet_povolenych(m, u);
    let k = nahodne_pod(rng, n);
    let mut videno: usize = 0;
    let mut s: usize = 0;
    let mut posledni: usize = N_SLOTU;
    while s < N_SLOTU
        invariant
            s <= N_SLOTU,
            videno <= s,
            m.dobry(),
            u < m.n_u,
            posledni == N_SLOTU || (posledni < N_SLOTU && m.allowed@[u as int]@[posledni as int]),
        decreases N_SLOTU - s,
    {
        if m.allowed[u][s] {
            if videno == k {
                return s as u8;
            }
            videno = videno + 1;
            posledni = s;
        }
        s = s + 1;
    }
    if posledni < N_SLOTU {
        return posledni as u8;
    }
    let mut s: usize = 0;
    while s < N_SLOTU
        invariant
            s <= N_SLOTU,
            m.dobry(),
            u < m.n_u,
            forall|x: int| 0 <= x < s ==> !m.allowed@[u as int]@[x],
        decreases N_SLOTU - s,
    {
        if m.allowed[u][s] {
            return s as u8;
        }
        s = s + 1;
    }
    proof {
        let w = choose|x: int| 0 <= x < m.allowed@[u as int]@.len() && #[trigger] m.allowed@[u as int]@[x];
        assert(!m.allowed@[u as int]@[w]);
    }
    0
}

/// Všechny jednotky jsou umístěné.
pub open spec fn vse_umisteno(st: &Stav) -> bool {
    forall|u: int| 0 <= u < st.start@.len() ==> #[trigger] st.start@[u] != NENI
}

/// První povolený začátek jednotky.
fn prvni_povoleny(m: &Model, u: usize) -> (r: u8)
    requires
        m.dobry(),
        u < m.n_u,
    ensures
        povoleny(m, u as int, r),
{
    let mut s: usize = 0;
    while s < N_SLOTU
        invariant
            s <= N_SLOTU,
            m.dobry(),
            u < m.n_u,
            forall|x: int| 0 <= x < s ==> !m.allowed@[u as int]@[x],
        decreases N_SLOTU - s,
    {
        if m.allowed[u][s] {
            return s as u8;
        }
        s = s + 1;
    }
    proof {
        let w = choose|x: int| 0 <= x < m.allowed@[u as int]@.len() && #[trigger] m.allowed@[u as int]@[x];
        assert(!m.allowed@[u as int]@[w]);
    }
    0
}

/// Zamíchané indexy jsou pořád menší než `n`.
proof fn lemma_zamichane(a: Seq<usize>, b: Seq<usize>, n: int)
    requires
        forall|k: int| 0 <= k < a.len() ==> (#[trigger] a[k]) < n,
        b.to_multiset() == a.to_multiset(),
    ensures
        forall|k: int| 0 <= k < b.len() ==> (#[trigger] b[k]) < n,
{
    broadcast use vstd::seq_lib::group_to_multiset_ensures;

    assert forall|k: int| 0 <= k < b.len() implies (#[trigger] b[k]) < n by {
        assert(b.contains(b[k]));
        assert(b.to_multiset().count(b[k]) > 0);
        assert(a.contains(b[k]));
        let j = choose|j: int| 0 <= j < a.len() && a[j] == b[k];
        assert(a[j] < n);
    }
}

/// Indexy `0..n` v náhodném pořadí.
fn zamichane(n: usize, rng: &mut StdRng) -> (r: Vec<usize>)
    ensures
        r@.len() == n,
        forall|k: int| 0 <= k < r@.len() ==> (#[trigger] r@[k]) < n,
{
    let mut v: Vec<usize> = Vec::new();
    let mut i: usize = 0;
    while i < n
        invariant
            i <= n,
            v@.len() == i,
            forall|k: int| 0 <= k < v@.len() ==> (#[trigger] v@[k]) < n,
        decreases n - i,
    {
        v.push(i);
        i = i + 1;
    }
    let ghost v0 = v@;
    zamichej(&mut v, rng);
    proof {
        lemma_zamichane(v0, v@, n as int);
    }
    v
}

/// Hladový start s náhodným pořadím: zamíchá jednotky, pro každou (v tom pořadí) zamíchá
/// dny a zbytek udělá `greedy_v_poradi`.
pub fn greedy(st: &mut Stav, m: &Model, rng: &mut StdRng)
    requires
        old(st).dobry(m),
        starty_platne(m, old(st).start@),
    ensures
        final(st).dobry(m),
        starty_platne(m, final(st).start@),
        vse_umisteno(final(st)),
{
    let poradi = zamichane(m.n_u, rng);
    let mut dny: Vec<Vec<usize>> = Vec::new();
    let mut q: usize = 0;
    while q < m.n_u
        invariant
            q <= m.n_u,
            dny@.len() == q,
            forall|a: int| 0 <= a < q ==> (#[trigger] dny@[a])@.len() == DNY,
            forall|a: int, k: int| 0 <= a < q && 0 <= k < DNY ==> (#[trigger] dny@[a]@[k]) < DNY,
        decreases m.n_u - q,
    {
        dny.push(zamichane(DNY, rng));
        q = q + 1;
    }
    greedy_v_poradi(st, m, &poradi, &dny);
}

/// Hladový start v daném pořadí: jednotky (z pořadí `poradi`, stabilně seřazené od
/// nejméně volných a při shodě od největších) jedna po druhé, každá na nejlevnější
/// povolený začátek; dny se pro `q`-tou zkoušejí v pořadí `dny[q]`. Na konci je umístěna
/// každá jednotka (případnou neumístěnou dá na její první povolený začátek).
pub fn greedy_v_poradi(st: &mut Stav, m: &Model, poradi: &Vec<usize>, dny: &Vec<Vec<usize>>)
    requires
        old(st).dobry(m),
        starty_platne(m, old(st).start@),
        poradi@.len() == m.n_u,
        forall|k: int| 0 <= k < poradi@.len() ==> (#[trigger] poradi@[k]) < m.n_u,
        dny@.len() == m.n_u,
        forall|a: int| 0 <= a < dny@.len() ==> (#[trigger] dny@[a])@.len() == DNY,
        forall|a: int, k: int| 0 <= a < dny@.len() && 0 <= k < DNY ==> (#[trigger] dny@[a]@[k]) < DNY,
    ensures
        final(st).dobry(m),
        starty_platne(m, final(st).start@),
        vse_umisteno(final(st)),
{
    let mut poradi = kopie_poradi(poradi);
    let mut klic1: Vec<usize> = Vec::new();
    let mut klic2: Vec<i64> = Vec::new();
    let mut u: usize = 0;
    while u < m.n_u
        invariant
            u <= m.n_u,
            m.dobry(),
            klic1@.len() == u,
            klic2@.len() == u,
        decreases m.n_u - u,
    {
        klic1.push(pocet_povolenych(m, u));
        klic2.push(s_mul(m.usize_[u], m.ulen[u] as i64));
        u = u + 1;
    }
    let mut i: usize = 1;
    while i < poradi.len()
        invariant
            1 <= i,
            poradi@.len() == m.n_u,
            klic1@.len() == m.n_u,
            klic2@.len() == m.n_u,
            forall|k: int| 0 <= k < poradi@.len() ==> (#[trigger] poradi@[k]) < m.n_u,
        decreases poradi@.len() - i,
    {
        let x = poradi[i];
        let mut j = i;
        while j > 0 && (klic1[x] < klic1[poradi[j - 1]] || (klic1[x] == klic1[poradi[j - 1]] && klic2[x] > klic2[poradi[j - 1]]))
            invariant
                0 <= j <= i,
                i < poradi@.len(),
                x < m.n_u,
                poradi@.len() == m.n_u,
                klic1@.len() == m.n_u,
                klic2@.len() == m.n_u,
                forall|k: int| 0 <= k < poradi@.len() ==> (#[trigger] poradi@[k]) < m.n_u,
            decreases j,
        {
            let y = poradi[j - 1];
            poradi.set(j, y);
            j = j - 1;
        }
        poradi.set(j, x);
        i = i + 1;
    }
    let mut q: usize = 0;
    while q < poradi.len()
        invariant
            q <= poradi@.len(),
            poradi@.len() == m.n_u,
            forall|k: int| 0 <= k < poradi@.len() ==> (#[trigger] poradi@[k]) < m.n_u,
            st.dobry(m),
            starty_platne(m, st.start@),
            dny@.len() == m.n_u,
            forall|a: int| 0 <= a < dny@.len() ==> (#[trigger] dny@[a])@.len() == DNY,
            forall|a: int, k: int| 0 <= a < dny@.len() && 0 <= k < DNY ==> (#[trigger] dny@[a]@[k]) < DNY,
        decreases poradi@.len() - q,
    {
        let u = poradi[q];
        let dny = &dny[q];
        let mut best_d: i64 = i64::MAX;
        let mut best_s: u8 = NENI;
        let mut a: usize = 0;
        while a < dny.len()
            invariant
                a <= dny@.len(),
                dny@.len() == DNY,
                forall|k: int| 0 <= k < dny@.len() ==> (#[trigger] dny@[k]) < DNY,
                u < m.n_u,
                st.dobry(m),
                starty_platne(m, st.start@),
                best_s == NENI || povoleny(m, u as int, best_s),
            decreases dny@.len() - a,
        {
            let d = dny[a];
            let mut k: usize = 0;
            while k < SLOTU
                invariant
                    k <= SLOTU,
                    d < DNY,
                    u < m.n_u,
                    st.dobry(m),
                    starty_platne(m, st.start@),
                    best_s == NENI || povoleny(m, u as int, best_s),
                decreases SLOTU - k,
            {
                let s = (d * SLOTU + k) as u8;
                if st.povoleno(m, u, s) {
                    let delta = st.presun(m, u, s);
                    st.presun(m, u, NENI);
                    if delta < best_d {
                        best_d = delta;
                        best_s = s;
                    }
                }
                k = k + 1;
            }
            a = a + 1;
        }
        st.presun(m, u, best_s);
        q = q + 1;
    }
    let mut u: usize = 0;
    while u < m.n_u
        invariant
            u <= m.n_u,
            st.dobry(m),
            starty_platne(m, st.start@),
            forall|x: int| 0 <= x < u ==> #[trigger] st.start@[x] != NENI,
        decreases m.n_u - u,
    {
        if st.start[u] == NENI {
            let s = prvni_povoleny(m, u);
            st.presun(m, u, s);
        }
        u = u + 1;
    }
}

/// Kopie pořadí.
fn kopie_poradi(v: &Vec<usize>) -> (r: Vec<usize>)
    ensures
        r@ == v@,
{
    let mut r: Vec<usize> = Vec::new();
    let mut i: usize = 0;
    while i < v.len()
        invariant
            i <= v@.len(),
            r@ == v@.take(i as int),
        decreases v@.len() - i,
    {
        r.push(v[i]);
        proof {
            assert(v@.take(i + 1) =~= v@.take(i as int).push(v@[i as int]));
        }
        i = i + 1;
    }
    proof {
        assert(v@.take(v@.len() as int) =~= v@);
    }
    r
}

/// Nahlásí průběh, je-li komu.
pub(crate) fn hlas(prubeh: Option<&Mutex<Prubeh>>, faze: &str, iter: u64, st: &Stav, t0: &Instant) {
    match prubeh {
        Some(p) => {
            let cas = ms_od(t0);
            zapis_prubeh(p, faze, iter, st.hard, st.soft, cas);
        },
        None => {},
    }
}

/// Kopie začátků.
fn kopie_startu(v: &Vec<u8>) -> (r: Vec<u8>)
    ensures
        r@ == v@,
{
    let mut r: Vec<u8> = Vec::new();
    let mut i: usize = 0;
    while i < v.len()
        invariant
            i <= v@.len(),
            r@ == v@.take(i as int),
        decreases v@.len() - i,
    {
        r.push(v[i]);
        proof {
            assert(v@.take(i + 1) =~= v@.take(i as int).push(v@[i as int]));
        }
        i = i + 1;
    }
    proof {
        assert(v@.take(v@.len() as int) =~= v@);
    }
    r
}

/// Začátky jsou platné pro model: každý neumístěný nebo povolený.
pub open spec fn starty_platne(m: &Model, s: Seq<u8>) -> bool {
    &&& s.len() == m.n_u
    &&& forall|u: int| 0 <= u < m.n_u ==> #[trigger] s[u] == NENI || povoleny(m, u, s[u])
}

/// Účelová funkce stavu podle jeho uložených cen (jako `Stav::obj`).
pub open spec fn objektiv(st: Stav) -> int {
    omez(omez(st.hard * H) + st.soft)
}

/// Zapamatuje si stav, je-li lepší než dosud nejlepší: pak jsou nejlepší začátky jeho
/// začátky a nejlepší hodnota jeho účelová funkce; jinak se nic nemění.
pub fn zaznamenej_nejlepsi(st: &Stav, best: &mut Vec<u8>, best_obj: &mut i64) -> (zlepseno: bool)
    ensures
        zlepseno == (objektiv(*st) < *old(best_obj)),
        zlepseno ==> final(best)@ == st.start@ && *final(best_obj) == objektiv(*st),
        !zlepseno ==> final(best)@ == old(best)@ && *final(best_obj) == *old(best_obj),
{
    let o = st.obj();
    if o < *best_obj {
        *best_obj = o;
        *best = kopie_startu(&st.start);
        true
    } else {
        false
    }
}

/// Dokončí tah jednotky `u` vrácené z původního začátku `su`: přijatý tah zůstane,
/// nepřijatý se vrátí na `su`.
pub fn dokonci_tah(st: &mut Stav, m: &Model, u: usize, su: u8, prijat: bool)
    requires
        old(st).dobry(m),
        starty_platne(m, old(st).start@),
        u < m.n_u,
        su == NENI || povoleny(m, u as int, su),
    ensures
        final(st).dobry(m),
        starty_platne(m, final(st).start@),
        prijat ==> *final(st) == *old(st),
        !prijat ==> final(st).start@ == old(st).start@.update(u as int, su),
{
    if !prijat {
        st.presun(m, u, su);
    }
}

/// Je-li v prvních `k` položkách nejvýš jedna pravdivá, jsou dvě pravdivé tatáž.
proof fn lemma_jedina(s: Seq<bool>, k: int, a: int, b: int)
    requires
        crate::validation::obsazenych(s, k) <= 1,
        0 <= a < k,
        0 <= b < k,
        s[a],
        s[b],
    ensures
        a == b,
    decreases k,
{
    if a < k - 1 && b < k - 1 {
        lemma_jedina(s, k - 1, a, b);
    } else if a != b {
        let c = if a < b { a } else { b };
        lemma_obsazenych_kladne(s, k - 1, c);
    }
}

/// Je-li mezi prvními `k` položkami pravdivá, je jich aspoň jedna.
proof fn lemma_obsazenych_kladne(s: Seq<bool>, k: int, c: int)
    requires
        0 <= c < k,
        s[c],
    ensures
        crate::validation::obsazenych(s, k) >= 1,
    decreases k,
{
    if c < k - 1 {
        lemma_obsazenych_kladne(s, k - 1, c);
    }
}

/// Simulované žíhání: náhodné přesuny a výměny jednotek (přednostně špatných) s
/// Metropolisovým přijetím, teplota klesá s uplynulým časem. Nakonec nastaví nejlepší
/// nalezené začátky (nebo vrátí vstupní stav, vyšlo-li by skóre horší než vstupní) a vrátí
/// je, počet iterací a účelovou funkci výsledného stavu.
pub fn zihani(
    st: &mut Stav,
    m: &Model,
    rng: &mut StdRng,
    limit_ms: u64,
    stop: &AtomicBool,
    prubeh: Option<&Mutex<Prubeh>>,
    t0: &Instant,
) -> (r: (Vec<u8>, u64, i64))
    requires
        old(st).dobry(m),
        starty_platne(m, old(st).start@),
        vse_umisteno(old(st)),
    ensures
        final(st).dobry(m),
        starty_platne(m, final(st).start@),
        vse_umisteno(final(st)),
        starty_platne(m, r.0@),
        forall|u: int| 0 <= u < r.0@.len() ==> #[trigger] r.0@[u] != NENI,
        final(st).start@ == r.0@,
        r.2 == objektiv(*final(st)),
        r.2 <= objektiv(*old(st)),
        forall|u: int| 0 <= u < m.n_u && jedina_moznost(m, u) ==> #[trigger] r.0@[u] == old(st).start@[u],
{
    let vstup = st.kopie();
    let obj_vstup = st.obj();
    let ghost s0 = old(st).start@;
    let mut pohyblive: Vec<usize> = Vec::new();
    let mut maska: Vec<bool> = Vec::new();
    let mut u: usize = 0;
    while u < m.n_u
        invariant
            u <= m.n_u,
            m.dobry(),
            maska@.len() == u,
            forall|k: int| 0 <= k < pohyblive@.len() ==> (#[trigger] pohyblive@[k]) < m.n_u,
            forall|k: int| 0 <= k < pohyblive@.len() ==> !jedina_moznost(m, #[trigger] pohyblive@[k] as int),
            forall|x: int| 0 <= x < u ==> #[trigger] maska@[x] == !jedina_moznost(m, x),
        decreases m.n_u - u,
    {
        let p = pocet_povolenych(m, u) > 1;
        if p {
            pohyblive.push(u);
        }
        maska.push(p);
        u = u + 1;
    }
    let mut best = kopie_startu(&st.start);
    let mut best_obj = st.obj();
    let ghost obj0 = objektiv(*st);
    let ghost start0 = st.start@;
    if pohyblive.len() == 0 {
        proof {
            assert(best@ == st.start@);
        }
        return (best, 0, best_obj);
    }
    let mut temp: u64 = teplota(0);
    let mut spatne = st.spatne(m, &maska);
    let mut iter: u64 = 0;
    let mut posledni_zlepseni: u64 = 0;
    let mut cas_zlepseni = ted();
    let start_zihani = ted();
    let el0 = ms_od(t0);
    let limit_zihani: u64 = if limit_ms > el0 && limit_ms - el0 > 500 { limit_ms - el0 } else { 500 };
    let mez_klidu: u64 = if limit_zihani / 4 > 3000 { limit_zihani / 4 } else { 3000 };
    let mut posledni_hlaseni = ted();
    while iter < u64::MAX
        invariant
            st.dobry(m),
            starty_platne(m, st.start@),
            vse_umisteno(st),
            starty_platne(m, best@),
            forall|x: int| 0 <= x < best@.len() ==> #[trigger] best@[x] != NENI,
            maska@.len() == m.n_u,
            pohyblive@.len() > 0,
            forall|k: int| 0 <= k < pohyblive@.len() ==> (#[trigger] pohyblive@[k]) < m.n_u,
            forall|k: int| 0 <= k < spatne@.len() ==> (#[trigger] spatne@[k]) < m.n_u,
            posledni_zlepseni <= iter,
            limit_zihani > 0,
            forall|k: int| 0 <= k < pohyblive@.len() ==> !jedina_moznost(m, #[trigger] pohyblive@[k] as int),
            forall|x: int| 0 <= x < m.n_u ==> #[trigger] maska@[x] == !jedina_moznost(m, x),
            forall|k: int| 0 <= k < spatne@.len() ==> maska@[#[trigger] spatne@[k] as int],
            s0 == old(st).start@,
            st.start@.len() == m.n_u,
            forall|x: int| 0 <= x < m.n_u && jedina_moznost(m, x) ==> #[trigger] st.start@[x] == s0[x],
            forall|x: int| 0 <= x < m.n_u && jedina_moznost(m, x) ==> #[trigger] best@[x] == s0[x],
            stejny(vstup, *old(st)),
            obj_vstup == objektiv(*old(st)),
            obj0 == objektiv(*old(st)),
            start0 == old(st).start@,
            best_obj <= obj0,
            best@ == start0 && best_obj == obj0 || best_obj < obj0,
        decreases u64::MAX - iter,
    {
        iter = iter + 1;
        if iter % 256 == 0 {
            let el = ms_od(&start_zihani);
            if el >= limit_zihani || crate::zastaveni::zastaveno(stop) {
                break;
            }
            let citatel: u128 = (el as u128) * 65536;
            let podil: u128 = citatel / (limit_zihani as u128);
            proof {
                assert(podil < 65536) by (nonlinear_arith)
                    requires
                        podil == citatel / (limit_zihani as u128),
                        citatel == (el as u128) * 65536,
                        el < limit_zihani,
                        limit_zihani > 0,
                ;
            }
            let frac: u64 = podil as u64;
            temp = teplota(frac);
            if best_obj < H && ms_od(&cas_zlepseni) > mez_klidu {
                break;
            }
            if ms_od(&posledni_hlaseni) > 200 {
                hlas(prubeh, "žíhání", iter, st, t0);
                posledni_hlaseni = ted();
            }
        }
        if iter % 2000 == 0 {
            spatne = st.spatne(m, &maska);
        }
        if iter % 4000 == 0 && st.hard > 0 && iter - posledni_zlepseni > 4000 && spatne.len() > 0 {
            let mut k: usize = 0;
            while k < 3
                invariant
                    k <= 3,
                    st.dobry(m),
                    starty_platne(m, st.start@),
                    vse_umisteno(st),
                    spatne@.len() > 0,
                    forall|x: int| 0 <= x < spatne@.len() ==> (#[trigger] spatne@[x]) < m.n_u,
                    forall|x: int| 0 <= x < m.n_u ==> #[trigger] maska@[x] == !jedina_moznost(m, x),
                    forall|x: int| 0 <= x < spatne@.len() ==> maska@[#[trigger] spatne@[x] as int],
                    st.start@.len() == m.n_u,
                    forall|x: int| 0 <= x < m.n_u && jedina_moznost(m, x) ==> #[trigger] st.start@[x] == s0[x],
                decreases 3 - k,
            {
                let u = spatne[nahodne_pod(rng, spatne.len())];
                let s = nahodny_start(m, u, rng);
                st.presun(m, u, s);
                k = k + 1;
            }
        }
        let u = if spatne.len() > 0 && sance(rng, 8, 10) {
            spatne[nahodne_pod(rng, spatne.len())]
        } else {
            pohyblive[nahodne_pod(rng, pohyblive.len())]
        };
        let su = st.start[u];
        if sance(rng, 3, 10) && m.uprof[u].len() > 0 {
            let p = m.uprof[u][nahodne_pod(rng, m.uprof[u].len())] as usize;
            proof {
                assert(p < m.prof@.len());
            }
            if m.prof_units[p].len() == 0 {
                continue;
            }
            let v = m.prof_units[p][nahodne_pod(rng, m.prof_units[p].len())] as usize;
            proof {
                assert(v < m.n_u);
            }
            let sv = st.start[v];
            if v == u || m.ulen[u] != m.ulen[v] || sv == su || !st.povoleno(m, u, sv) || !st.povoleno(m, v, su) {
                continue;
            }
            proof {
                if jedina_moznost(m, v as int) {
                    lemma_jedina(m.allowed@[v as int]@, N_SLOTU as int, sv as int, su as int);
                }
            }
            let d1 = st.presun(m, u, sv);
            let d2 = st.presun(m, v, su);
            let d = s_add(d1, d2);
            let prijat = prijmi(d, temp, rng);
            dokonci_tah(st, m, v, sv, prijat);
            dokonci_tah(st, m, u, su, prijat);
            if !prijat {
                continue;
            }
        } else {
            let cil = if sance(rng, 1, 2) {
                let mut nej_d: i64 = i64::MAX;
                let mut nej_s: u8 = NENI;
                let mut k: usize = 0;
                while k < 6
                    invariant
                        k <= 6,
                        u < m.n_u,
                        st.dobry(m),
                        starty_platne(m, st.start@),
                        vse_umisteno(st),
                        su != NENI,
                        st.start@[u as int] == su,
                        nej_s == NENI || povoleny(m, u as int, nej_s),
                        !jedina_moznost(m, u as int),
                        st.start@.len() == m.n_u,
                        forall|x: int| 0 <= x < m.n_u && jedina_moznost(m, x) ==> #[trigger] st.start@[x] == s0[x],
                    decreases 6 - k,
                {
                    let c = nahodny_start(m, u, rng);
                    if c != su {
                        let d = st.presun(m, u, c);
                        st.presun(m, u, su);
                        if d < nej_d {
                            nej_d = d;
                            nej_s = c;
                        }
                    }
                    k = k + 1;
                }
                nej_s
            } else {
                nahodny_start(m, u, rng)
            };
            if cil == NENI || cil == su {
                continue;
            }
            let d = st.presun(m, u, cil);
            let prijat = prijmi(d, temp, rng);
            dokonci_tah(st, m, u, su, prijat);
            if !prijat {
                continue;
            }
        }
        if zaznamenej_nejlepsi(st, &mut best, &mut best_obj) {
            posledni_zlepseni = iter;
            cas_zlepseni = ted();
        }
    }
    st.nastav(m, &best);
    if !(st.obj() <= obj_vstup) {
        *st = vstup;
        proof {
            lemma_stejny_dobry(*old(st), *st, *m);
        }
        best = kopie_startu(&st.start);
    }
    let o = st.obj();
    (best, iter, o)
}

/// Sdílí jednotka s jinou některý klíč předmětu?
fn sdili_klic(m: &Model, u: usize, v: usize) -> (r: bool)
    requires
        m.dobry(),
        u < m.n_u,
        v < m.n_u,
    ensures
        r == exists|k: int| 0 <= k < m.ukeys@[u as int]@.len() && m.ukeys@[v as int]@.contains(#[trigger] m.ukeys@[u as int]@[k]),
{
    let mut k: usize = 0;
    while k < m.ukeys[u].len()
        invariant
            k <= m.ukeys@[u as int]@.len(),
            m.dobry(),
            u < m.n_u,
            v < m.n_u,
            forall|j: int| 0 <= j < k ==> !m.ukeys@[v as int]@.contains(#[trigger] m.ukeys@[u as int]@[j]),
        decreases m.ukeys@[u as int]@.len() - k,
    {
        if crate::model::obsahuje_u32(&m.ukeys[v], m.ukeys[u][k]) {
            return true;
        }
        k = k + 1;
    }
    false
}

/// Jednotka má jediný povolený začátek.
pub open spec fn jedina_moznost(m: &Model, u: int) -> bool {
    crate::validation::obsazenych(m.allowed@[u]@, N_SLOTU as int) <= 1
}

/// Stejné předměty téhož dne posune vedle sebe (souvislé bloky), pokud to zlepší skóre;
/// pak dočištění: každou jednotku přesune na nejlepší povolený začátek, zlepší-li to
/// skóre. Nejvýš tři kola, dokud se něco zlepšuje. Výsledek se ponechá, jen je-li jeho
/// skóre lepší než vstupní; jinak zůstane vstupní stav.
pub fn slep_bloky(st: &mut Stav, m: &Model)
    requires
        old(st).dobry(m),
        starty_platne(m, old(st).start@),
        vse_umisteno(old(st)),
    ensures
        final(st).dobry(m),
        starty_platne(m, final(st).start@),
        vse_umisteno(final(st)),
        objektiv(*final(st)) <= objektiv(*old(st)),
        objektiv(*final(st)) < objektiv(*old(st)) || crate::stav::stejny(*final(st), *old(st)),
        forall|u: int| 0 <= u < m.n_u && jedina_moznost(m, u) ==> #[trigger] final(st).start@[u] == old(st).start@[u],
{
    let vstup = st.kopie();
    let obj0 = st.obj();
    let ghost s0 = old(st).start@;
    let mut kolo: usize = 0;
    while kolo < 3
        invariant
            forall|x: int| 0 <= x < m.n_u && jedina_moznost(m, x) ==> #[trigger] st.start@[x] == s0[x],
            s0.len() == m.n_u,
            kolo <= 3,
            st.dobry(m),
            starty_platne(m, st.start@),
            vse_umisteno(st),
        decreases 3 - kolo,
    {
        let mut zlepseno = false;
        let mut u: usize = 0;
        while u < m.n_u
            invariant
                forall|x: int| 0 <= x < m.n_u && jedina_moznost(m, x) ==> #[trigger] st.start@[x] == s0[x],
                s0.len() == m.n_u,
                u <= m.n_u,
                st.dobry(m),
                starty_platne(m, st.start@),
                vse_umisteno(st),
            decreases m.n_u - u,
        {
            let su = st.start[u];
            if su != NENI && pocet_povolenych(m, u) > 1 {
                let d = su as usize / SLOTU;
                let lu = m.ulen[u] as usize;
                let mut kandidati: Vec<u8> = Vec::new();
                let mut v: usize = 0;
                while v < m.n_u
                    invariant
                        forall|x: int| 0 <= x < m.n_u && jedina_moznost(m, x) ==> #[trigger] st.start@[x] == s0[x],
                        s0.len() == m.n_u,
                        v <= m.n_u,
                        st.dobry(m),
                        starty_platne(m, st.start@),
                        vse_umisteno(st),
                        u < m.n_u,
                        !jedina_moznost(m, u as int),
                        d < DNY,
                        1 <= lu <= 2,
                    decreases m.n_u - v,
                {
                    let sv = st.start[v] as usize;
                    if v != u && st.start[v] != NENI && sv / SLOTU == d && sdili_klic(m, u, v) {
                        if sv >= d * SLOTU + lu {
                            kandidati.push((sv - lu) as u8);
                        }
                        let za = sv + m.ulen[v] as usize;
                        if za + lu <= (d + 1) * SLOTU {
                            kandidati.push(za as u8);
                        }
                    }
                    v = v + 1;
                }
                let mut i: usize = 0;
                while i < kandidati.len()
                    invariant
                        forall|x: int| 0 <= x < m.n_u && jedina_moznost(m, x) ==> #[trigger] st.start@[x] == s0[x],
                        s0.len() == m.n_u,
                        i <= kandidati@.len(),
                        st.dobry(m),
                        starty_platne(m, st.start@),
                        vse_umisteno(st),
                        u < m.n_u,
                        !jedina_moznost(m, u as int),
                    decreases kandidati@.len() - i,
                {
                    let c = kandidati[i];
                    if c != st.start[u] && st.povoleno(m, u, c) {
                        let puvodni = st.start[u];
                        if st.presun(m, u, c) < 0 {
                            zlepseno = true;
                            break;
                        }
                        st.presun(m, u, puvodni);
                    }
                    i = i + 1;
                }
            }
            u = u + 1;
        }
        let mut u: usize = 0;
        while u < m.n_u
            invariant
                forall|x: int| 0 <= x < m.n_u && jedina_moznost(m, x) ==> #[trigger] st.start@[x] == s0[x],
                s0.len() == m.n_u,
                u <= m.n_u,
                st.dobry(m),
                starty_platne(m, st.start@),
                vse_umisteno(st),
            decreases m.n_u - u,
        {
            if pocet_povolenych(m, u) > 1 {
                let su = st.start[u];
                let mut nej_d: i64 = 0;
                let mut nej_s: u8 = su;
                let mut s: usize = 0;
                while s < N_SLOTU
                    invariant
                        forall|x: int| 0 <= x < m.n_u && jedina_moznost(m, x) ==> #[trigger] st.start@[x] == s0[x],
                        s0.len() == m.n_u,
                        s <= N_SLOTU,
                        u < m.n_u,
                        !jedina_moznost(m, u as int),
                        st.dobry(m),
                        starty_platne(m, st.start@),
                        vse_umisteno(st),
                        su != NENI,
                        st.start@[u as int] == su,
                        nej_s == su || povoleny(m, u as int, nej_s),
                    decreases N_SLOTU - s,
                {
                    let c = s as u8;
                    if c != su && m.allowed[u][s] {
                        let d = st.presun(m, u, c);
                        st.presun(m, u, su);
                        if d < nej_d {
                            nej_d = d;
                            nej_s = c;
                        }
                    }
                    s = s + 1;
                }
                if nej_s != su {
                    st.presun(m, u, nej_s);
                    zlepseno = true;
                }
            }
            u = u + 1;
        }
        if !zlepseno {
            break;
        }
        kolo = kolo + 1;
    }
    if !(st.obj() < obj0) {
        *st = vstup;
        proof {
            crate::stav::lemma_stejny_dobry(*old(st), *st, *m);
        }
    }

}

} // verus!
