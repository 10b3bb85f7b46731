//! Stav řešiče: začátky jednotek, obsazenost (profily, učitelé, klíče předmětů, bazény
//! místností) a ceny dnů; přesun jednotky mění cenu jen v dotčených dnech.

use crate::data::{DNY, MAX_DEN_TRIDA, MAX_RUN, MAX_STEJNY_PREDMET_DEN, N_SLOTU, SLOTU};
use crate::model::{omez, s_add, s_mul, s_sub, Model};
use crate::solver::NENI;
use vstd::multiset::Multiset;
use vstd::prelude::*;

verus! {

/// Váha jednoho tvrdého porušení vůči měkkým penalizacím (měkké jsou váženy počtem žáků).
pub const H: i64 = 50_000;

/// Měřítko měkkých penalizací učitele (okna, preferované třídy) vůči penalizacím žáků.
pub const MERITKO_UCITELE: i64 = 5;

/// Je jednotka s maskou týdnů přítomna v týdnu `w` (0 lichý, 1 sudý)?
pub open spec fn v_tydnu_spec(mask: u8, w: int) -> bool {
    if w == 0 {
        mask % 2 == 1
    } else {
        (mask / 2) % 2 == 1
    }
}

/// V hodině `t` týdne `w` je `k`-tý bazén jednotky `u` (kde jednotka v tom týdnu je)
/// přeplněný.
pub open spec fn bazen_preplnen(st: Stav, m: Model, u: int, t: int, k: int, w: int) -> bool {
    let (p, mask) = m.upools@[u]@[k];
    v_tydnu_spec(mask, w) && st.pool_occ@[p as int]@[w * N_SLOTU + t] > m.pool_cap@[p as int] as u32
}

/// `k`-tý profil jednotky `u` má v den `d` nebo v týdnu tvrdé porušení.
pub open spec fn profil_spatny(st: Stav, m: Model, u: int, k: int, d: int) -> bool {
    let p = m.uprof@[u]@[k] as int;
    st.prof_day@[p]@[d].hard > 0 || st.prof_week@[p] > 0
}

/// `k`-tý učitel jednotky `u` má v den `d` tvrdé porušení.
pub open spec fn ucitel_spatny(st: Stav, m: Model, u: int, k: int, d: int) -> bool {
    st.teach_day@[m.uteach@[u]@[k] as int]@[d].0 > 0
}

/// `k`-tý klíč předmětu jednotky `u` má v den `d` tvrdé porušení.
pub open spec fn klic_spatny(st: Stav, m: Model, u: int, k: int, d: int) -> bool {
    st.key_day@[m.ukeys@[u]@[k] as int]@[d].0 > 0
}

/// Jednotka je špatná: neumístěná, v kolizi, v přeplněném bazénu, nebo má tvrdé porušení
/// v den svého začátku u některého profilu, učitele či klíče.
pub open spec fn spatna_spec(st: Stav, m: Model, u: int) -> bool {
    let s = st.start@[u] as int;
    let d = s / SLOTU as int;
    ||| st.start@[u] == NENI
    ||| kolizi_v(st.slot_units@, m.conf@[u]@, u, s, mensi_i(s + m.ulen@[u], N_SLOTU as int)) > 0
    ||| exists|t: int, k: int, w: int|
        s <= t < s + m.ulen@[u] && 0 <= k < m.upools@[u]@.len() && 0 <= w < 2 && #[trigger] bazen_preplnen(st, m, u, t, k, w)
    ||| exists|k: int| 0 <= k < m.uprof@[u]@.len() && #[trigger] profil_spatny(st, m, u, k, d)
    ||| exists|k: int| 0 <= k < m.uteach@[u]@.len() && #[trigger] ucitel_spatny(st, m, u, k, d)
    ||| exists|k: int| 0 <= k < m.ukeys@[u]@.len() && #[trigger] klic_spatny(st, m, u, k, d)
}

/// Menší ze dvou čísel.
pub open spec fn mensi_i(a: int, b: int) -> int {
    if a < b {
        a
    } else {
        b
    }
}

/// Přesah `x` nad limitem (bez limitu nula).
pub open spec fn nad_limit(x: int, lim: Option<u8>) -> int {
    match lim {
        Some(l) => if x > l {
            x - l
        } else {
            0
        },
        None => 0,
    }
}

/// Součet ranních (`rane`) nebo odpoledních hodin prvních `k` dnů.
pub open spec fn soucet_dnu(dny: Seq<DenC>, k: int, rane: bool) -> int
    decreases k,
{
    if k <= 0 {
        0
    } else {
        soucet_dnu(dny, k - 1, rane) + if rane {
            dny[k - 1].rane as int
        } else {
            dny[k - 1].odpo as int
        }
    }
}

/// Počet jednotek mezi prvními `i` v hodině (seznam `su`), které nejsou `u` a s `u` kolidují.
pub open spec fn kolizi_v_hodine(su: Seq<u32>, conf_u: Seq<bool>, u: int, i: int) -> int
    decreases i,
{
    if i <= 0 {
        0
    } else {
        kolizi_v_hodine(su, conf_u, u, i - 1) + if su[i - 1] != u && conf_u[su[i - 1] as int] {
            1int
        } else {
            0int
        }
    }
}

/// Počet kolizí jednotky `u` v hodinách `s..t`.
pub open spec fn kolizi_v(su: Seq<Vec<u32>>, conf_u: Seq<bool>, u: int, s: int, t: int) -> int
    decreases t - s,
{
    if t <= s {
        0
    } else {
        kolizi_v(su, conf_u, u, s, t - 1) + kolizi_v_hodine(su[t - 1]@, conf_u, u, su[t - 1]@.len() as int)
    }
}

proof fn lemma_omez_plus_jedna(x: int)
    requires
        x >= 0,
    ensures
        omez(omez(x) + 1) == omez(x + 1),
{
}

/// Cena dne profilu.
#[derive(Clone, Copy, Debug)]
pub struct DenC {
    pub hard: i64,
    pub soft: i64,
    pub rane: u8,
    pub odpo: u8,
}

/// Tabulka `n` řádků po `sloupcu` položkách.
pub open spec fn tabulka<T>(t: Seq<Vec<T>>, n: int, sloupcu: int) -> bool {
    &&& t.len() == n
    &&& forall|r: int| 0 <= r < n ==> (#[trigger] t[r])@.len() == sloupcu
}

/// Přepíše jednu položku tabulky.
pub fn nastav2<T>(t: &mut Vec<Vec<T>>, r: usize, c: usize, v: T)
    requires
        r < old(t)@.len(),
        c < old(t)@[r as int]@.len(),
    ensures
        final(t)@.len() == old(t)@.len(),
        forall|x: int| 0 <= x < old(t)@.len() ==> (#[trigger] final(t)@[x])@.len() == old(t)@[x]@.len(),
        final(t)@[r as int]@[c as int] == v,
        forall|x: int, y: int|
            0 <= x < old(t)@.len() && 0 <= y < old(t)@[x]@.len() && (x != r || y != c) ==> #[trigger] final(t)@[x]@[y]
                == old(t)@[x]@[y],
{
    t[r].set(c, v);
}

/// Stav řešiče.
#[derive(Clone, Debug)]
pub struct Stav {
    /// Začátek jednotky (`NENI` = neumístěna).
    pub start: Vec<u8>,
    pub prof_occ: Vec<Vec<u32>>,
    pub teach_occ: Vec<Vec<u32>>,
    /// Obsazenost učitele hodinami jeho preferovaných tříd.
    pub teach_pref_occ: Vec<Vec<u32>>,
    pub key_occ: Vec<Vec<u32>>,
    /// Obsazenost bazénu `p` v týdnu `w` a hodině `t` je `pool_occ[p][w*N_SLOTU + t]`.
    pub pool_occ: Vec<Vec<u32>>,
    pub prof_day: Vec<Vec<DenC>>,
    pub prof_week: Vec<i64>,
    pub teach_day: Vec<Vec<(i64, i64)>>,
    pub key_day: Vec<Vec<(i64, i64)>>,
    /// Jednotky, které zabírají danou hodinu týdne.
    pub slot_units: Vec<Vec<u32>>,
    pub hard: i64,
    pub soft: i64,
}

/// Jednotka začínající v `s` délky `len` zabírá hodinu `t`.
pub open spec fn pokryva(s: u8, len: u8, t: int) -> bool {
    s != NENI && s <= t < s + len
}

impl Stav {
    /// Rozměry stavu odpovídají modelu a každá umístěná jednotka se vejde do svého dne.
    pub open spec fn dobry(&self, m: &Model) -> bool {
        &&& m.dobry()
        &&& self.start@.len() == m.n_u
        &&& forall|u: int| 0 <= u < m.n_u ==> #[trigger] self.start@[u] == NENI || vejde_se(m, u, self.start@[u])
        &&& tabulka(self.prof_occ@, m.prof@.len() as int, N_SLOTU as int)
        &&& tabulka(self.teach_occ@, m.teach_max@.len() as int, N_SLOTU as int)
        &&& tabulka(self.teach_pref_occ@, m.teach_max@.len() as int, N_SLOTU as int)
        &&& tabulka(self.key_occ@, m.key_len@.len() as int, N_SLOTU as int)
        &&& tabulka(self.pool_occ@, m.pool_cap@.len() as int, 2 * N_SLOTU as int)
        &&& tabulka(self.prof_day@, m.prof@.len() as int, DNY as int)
        &&& self.prof_week@.len() == m.prof@.len()
        &&& tabulka(self.teach_day@, m.teach_max@.len() as int, DNY as int)
        &&& tabulka(self.key_day@, m.key_len@.len() as int, DNY as int)
        &&& self.slot_units@.len() == N_SLOTU
        &&& forall|t: int, i: int|
            0 <= t < N_SLOTU && 0 <= i < self.slot_units@[t]@.len() ==> #[trigger] self.slot_units@[t]@[i] < m.n_u
    }
}

/// Dvě tabulky mají stejné řádky.
pub open spec fn stejne_tabulky<T>(a: Seq<Vec<T>>, b: Seq<Vec<T>>) -> bool {
    &&& a.len() == b.len()
    &&& forall|i: int| 0 <= i < a.len() ==> #[trigger] a[i]@ == b[i]@
}

/// Dva stavy se shodují ve všech začátcích, obsazenostech, cenách dnů a celkové ceně.
pub open spec fn stejny(a: Stav, b: Stav) -> bool {
    &&& a.start@ == b.start@
    &&& stejne_tabulky(a.prof_occ@, b.prof_occ@)
    &&& stejne_tabulky(a.teach_occ@, b.teach_occ@)
    &&& stejne_tabulky(a.teach_pref_occ@, b.teach_pref_occ@)
    &&& stejne_tabulky(a.key_occ@, b.key_occ@)
    &&& stejne_tabulky(a.pool_occ@, b.pool_occ@)
    &&& stejne_tabulky(a.prof_day@, b.prof_day@)
    &&& a.prof_week@ == b.prof_week@
    &&& stejne_tabulky(a.teach_day@, b.teach_day@)
    &&& stejne_tabulky(a.key_day@, b.key_day@)
    &&& stejne_tabulky(a.slot_units@, b.slot_units@)
    &&& a.hard == b.hard
    &&& a.soft == b.soft
}

/// Shodný stav je dobrý pro model, právě když je dobrý ten první.
pub proof fn lemma_stejny_dobry(a: Stav, b: Stav, m: Model)
    requires
        stejny(a, b),
        a.dobry(&m),
    ensures
        b.dobry(&m),
{
    assert forall|r: int| 0 <= r < m.prof@.len() implies (#[trigger] b.prof_occ@[r])@.len() == N_SLOTU by {
        assert(a.prof_occ@[r]@ == b.prof_occ@[r]@);
    }
    assert forall|r: int| 0 <= r < m.teach_max@.len() implies (#[trigger] b.teach_occ@[r])@.len() == N_SLOTU by {
        assert(a.teach_occ@[r]@ == b.teach_occ@[r]@);
    }
    assert forall|r: int| 0 <= r < m.teach_max@.len() implies (#[trigger] b.teach_pref_occ@[r])@.len() == N_SLOTU by {
        assert(a.teach_pref_occ@[r]@ == b.teach_pref_occ@[r]@);
    }
    assert forall|r: int| 0 <= r < m.key_len@.len() implies (#[trigger] b.key_occ@[r])@.len() == N_SLOTU by {
        assert(a.key_occ@[r]@ == b.key_occ@[r]@);
    }
    assert forall|r: int| 0 <= r < m.pool_cap@.len() implies (#[trigger] b.pool_occ@[r])@.len() == 2 * N_SLOTU by {
        assert(a.pool_occ@[r]@ == b.pool_occ@[r]@);
    }
    assert forall|r: int| 0 <= r < m.prof@.len() implies (#[trigger] b.prof_day@[r])@.len() == DNY by {
        assert(a.prof_day@[r]@ == b.prof_day@[r]@);
    }
    assert forall|r: int| 0 <= r < m.teach_max@.len() implies (#[trigger] b.teach_day@[r])@.len() == DNY by {
        assert(a.teach_day@[r]@ == b.teach_day@[r]@);
    }
    assert forall|r: int| 0 <= r < m.key_len@.len() implies (#[trigger] b.key_day@[r])@.len() == DNY by {
        assert(a.key_day@[r]@ == b.key_day@[r]@);
    }
    assert forall|t: int, i: int|
        0 <= t < N_SLOTU && 0 <= i < b.slot_units@[t]@.len() implies #[trigger] b.slot_units@[t]@[i] < m.n_u by {
        assert(a.slot_units@[t]@ == b.slot_units@[t]@);
        assert(a.slot_units@[t]@[i] < m.n_u);
    }
}

/// Kopie řádku.
fn kopie_radku<T: Copy>(v: &Vec<T>) -> (r: Vec<T>)
    ensures
        r@ == v@,
{
    let mut r: Vec<T> = Vec::new();
    let mut i: usize = 0;
    while i < v.len()
        invariant
            i <= v@.len(),
            r@ == v@.take(i as int),
        decreases v@.len() - i,
    {
        r.push(v[i]);
        proof {
            assert(v@.take(i + 1) =~= v@.take(i as int).push(v@[i as int]));
        }
        i = i + 1;
    }
    proof {
        assert(v@.take(v@.len() as int) =~= v@);
    }
    r
}

/// Kopie tabulky.
fn kopie_tabulky<T: Copy>(t: &Vec<Vec<T>>) -> (r: Vec<Vec<T>>)
    ensures
        stejne_tabulky(r@, t@),
{
    let mut r: Vec<Vec<T>> = Vec::new();
    let mut i: usize = 0;
    while i < t.len()
        invariant
            i <= t@.len(),
            r@.len() == i,
            forall|k: int| 0 <= k < i ==> #[trigger] r@[k]@ == t@[k]@,
        decreases t@.len() - i,
    {
        r.push(kopie_radku(&t[i]));
        i = i + 1;
    }
    r
}

/// Tabulka nul.
fn nuly<T: Copy>(n: usize, sloupcu: usize, nula: T) -> (r: Vec<Vec<T>>)
    ensures
        tabulka(r@, n as int, sloupcu as int),
{
    let mut r: Vec<Vec<T>> = Vec::new();
    let mut i: usize = 0;
    while i < n
        invariant
            i <= n,
            tabulka(r@, i as int, sloupcu as int),
        decreases n - i,
    {
        let mut radek: Vec<T> = Vec::new();
        let mut k: usize = 0;
        while k < sloupcu
            invariant
                k <= sloupcu,
                radek@.len() == k,
            decreases sloupcu - k,
        {
            radek.push(nula);
            k = k + 1;
        }
        r.push(radek);
        i = i + 1;
    }
    r
}

/// Obsazené hodiny dne `d` (počet jednotek v hodině je kladný).
pub open spec fn den_obs(occ: Seq<u32>, d: int) -> Seq<bool> {
    Seq::new(SLOTU as nat, |k: int| occ[d * SLOTU + k] > 0)
}

/// Počet bloků (souvislých úseků obsazených hodin) mezi prvními `k` hodinami.
pub open spec fn bloku(s: Seq<bool>, k: int) -> nat
    decreases k,
{
    if k <= 0 {
        0
    } else {
        bloku(s, k - 1) + if s[k - 1] && (k == 1 || !s[k - 2]) {
            1nat
        } else {
            0nat
        }
    }
}

/// Součet přesahů nad `MAX_RUN` u bloků ukončených mezi prvními `k` hodinami.
pub open spec fn presah_do(s: Seq<bool>, k: int) -> nat
    decreases k,
{
    if k <= 0 {
        0
    } else {
        presah_do(s, k - 1) + if !s[k - 1] && crate::validation::blok_do(s, k - 1) > MAX_RUN {
            (crate::validation::blok_do(s, k - 1) - MAX_RUN) as nat
        } else {
            0nat
        }
    }
}

/// Index první obsazené hodiny mezi prvními `k` (-1 = žádná).
pub open spec fn prvni_obs(s: Seq<bool>, k: int) -> int
    decreases k,
{
    if k <= 0 {
        -1
    } else if prvni_obs(s, k - 1) >= 0 {
        prvni_obs(s, k - 1)
    } else if s[k - 1] {
        k - 1
    } else {
        -1
    }
}

/// Index poslední obsazené hodiny mezi prvními `k` (-1 = žádná).
pub open spec fn posledni_obs(s: Seq<bool>, k: int) -> int
    decreases k,
{
    if k <= 0 {
        -1
    } else if s[k - 1] {
        k - 1
    } else {
        posledni_obs(s, k - 1)
    }
}

/// Den jako (počet hodin, okna mezi první a poslední hodinou, přesah bloků nad `MAX_RUN`,
/// počet bloků).
pub open spec fn beh_spec(s: Seq<bool>) -> (int, int, int, int) {
    let n = crate::validation::obsazenych(s, SLOTU as int) as int;
    let b = crate::validation::blok_do(s, SLOTU as int);
    let okna = if n == 0 {
        0
    } else {
        posledni_obs(s, SLOTU as int) - prvni_obs(s, SLOTU as int) + 1 - n
    };
    let presah = presah_do(s, SLOTU as int) + if b > MAX_RUN {
        b - MAX_RUN
    } else {
        0
    };
    (n, okna, presah, bloku(s, SLOTU as int) as int)
}

/// Počet obsazených hodin, okna (mezery mezi první a poslední hodinou), přesah souvislých
/// bloků nad `MAX_RUN` a počet bloků v den `d`.
pub fn beh_a_okna(occ: &Vec<u32>, d: usize) -> (r: (usize, usize, usize, usize))
    requires
        occ@.len() == N_SLOTU,
        d < DNY,
    ensures
        r.0 <= SLOTU && r.1 <= SLOTU && r.2 <= SLOTU && r.3 <= SLOTU,
        (r.0 as int, r.1 as int, r.2 as int, r.3 as int) == beh_spec(den_obs(occ@, d as int)),
{
    let ghost sd = den_obs(occ@, d as int);
    let mut n: usize = 0;
    let mut first: usize = SLOTU;
    let mut last: usize = 0;
    let mut run: usize = 0;
    let mut presah: usize = 0;
    let mut seg: usize = 0;
    let mut k: usize = 0;
    while k < SLOTU
        invariant
            k <= SLOTU,
            d < DNY,
            occ@.len() == N_SLOTU,
            n <= k,
            seg <= k,
            presah + run <= k,
            n > 0 ==> first <= last && last < k && n <= last - first + 1,
            sd == den_obs(occ@, d as int),
            n == crate::validation::obsazenych(sd, k as int),
            run == crate::validation::blok_do(sd, k as int),
            presah == presah_do(sd, k as int),
            seg == bloku(sd, k as int),
            n == 0 <==> prvni_obs(sd, k as int) < 0,
            n > 0 ==> first == prvni_obs(sd, k as int) && last == posledni_obs(sd, k as int),
        decreases SLOTU - k,
    {
        proof {
            assert(sd[k as int] == (occ@[d * SLOTU + k] > 0));
        }
        if occ[d * SLOTU + k] > 0 {
            if run == 0 {
                seg = seg + 1;
            }
            if n == 0 {
                first = k;
            }
            n = n + 1;
            last = k;
            run = run + 1;
        } else {
            if run > MAX_RUN {
                presah = presah + (run - MAX_RUN);
            }
            run = 0;
        }
        k = k + 1;
    }
    if run > MAX_RUN {
        presah = presah + (run - MAX_RUN);
    }
    let okna: usize = if n == 0 { 0 } else { last - first + 1 - n };
    (n, okna, presah, seg)
}

/// Hodiny před `od` se do počtu od `od` nepočítají.
proof fn lemma_obsazenych_od_pred(s: Seq<bool>, k: int, od: int)
    requires
        k <= od,
    ensures
        crate::validation::obsazenych_od(s, k, od) == 0,
    decreases k,
{
    if k > 0 {
        lemma_obsazenych_od_pred(s, k - 1, od);
    }
}

/// Počet obsazených hodin dne od hodiny `od`.
fn obsazeno_od(occ: &Vec<u32>, d: usize, od: usize) -> (r: usize)
    requires
        occ@.len() == N_SLOTU,
        d < DNY,
    ensures
        r <= SLOTU,
        r == crate::validation::obsazenych_od(den_obs(occ@, d as int), SLOTU as int, od as int),
{
    let ghost sd = den_obs(occ@, d as int);
    if od >= SLOTU {
        proof {
            lemma_obsazenych_od_pred(sd, SLOTU as int, od as int);
        }
        return 0;
    }
    proof {
        lemma_obsazenych_od_pred(sd, od as int, od as int);
    }
    let mut r: usize = 0;
    let mut k: usize = od;
    while k < SLOTU
        invariant
            od <= k <= SLOTU,
            r <= k - od,
            d < DNY,
            occ@.len() == N_SLOTU,
            sd == den_obs(occ@, d as int),
            r == crate::validation::obsazenych_od(sd, k as int, od as int),
        decreases SLOTU - k,
    {
        proof {
            assert(sd[k as int] == (occ@[d * SLOTU + k] > 0));
        }
        if occ[d * SLOTU + k] > 0 {
            r = r + 1;
        }
        k = k + 1;
    }
    r
}

/// Je jednotka s maskou týdnů přítomna v týdnu `w` (0 lichý, 1 sudý)?
pub fn v_tydnu(mask: u8, w: usize) -> (r: bool)
    ensures
        w == 0 ==> r == (mask % 2 == 1),
        w != 0 ==> r == ((mask / 2) % 2 == 1),
{
    if w == 0 {
        mask % 2 == 1
    } else {
        (mask / 2) % 2 == 1
    }
}

/// Zvýší (o 1, nejvýš do `u32::MAX`) nebo sníží (o 1, nejníž na 0) položku obsazenosti.
fn posun(t: &mut Vec<Vec<u32>>, r: usize, c: usize, nahoru: bool) -> (nova: u32)
    requires
        r < old(t)@.len(),
        c < old(t)@[r as int]@.len(),
    ensures
        final(t)@.len() == old(t)@.len(),
        forall|x: int| 0 <= x < old(t)@.len() ==> (#[trigger] final(t)@[x])@.len() == old(t)@[x]@.len(),
        nova == final(t)@[r as int]@[c as int],
{
    let o = t[r][c];
    let n = if nahoru { o.saturating_add(1) } else { o.saturating_sub(1) };
    nastav2(t, r, c, n);
    n
}

impl Stav {
    /// Prázdný stav (nic neumístěno); tvrdá cena začíná vnitřními kolizemi jednotek.
    pub fn new(m: &Model) -> (st: Stav)
        requires
            m.dobry(),
        ensures
            st.dobry(m),
            forall|u: int| 0 <= u < m.n_u ==> #[trigger] st.start@[u] == NENI,
    {
        let mut start: Vec<u8> = Vec::new();
        let mut u: usize = 0;
        while u < m.n_u
            invariant
                u <= m.n_u,
                start@.len() == u,
                forall|x: int| 0 <= x < u ==> #[trigger] start@[x] == NENI,
            decreases m.n_u - u,
        {
            start.push(NENI);
            u = u + 1;
        }
        let np = m.prof.len();
        let nt = m.teach_max.len();
        let nk = m.key_len.len();
        let nb = m.pool_cap.len();
        let mut prof_week: Vec<i64> = Vec::new();
        let mut p: usize = 0;
        while p < np
            invariant
                p <= np,
                prof_week@.len() == p,
            decreases np - p,
        {
            prof_week.push(0);
            p = p + 1;
        }
        let nulovy = DenC { hard: 0, soft: 0, rane: 0, odpo: 0 };
        let st = Stav {
            start,
            prof_occ: nuly(np, N_SLOTU, 0u32),
            teach_occ: nuly(nt, N_SLOTU, 0u32),
            teach_pref_occ: nuly(nt, N_SLOTU, 0u32),
            key_occ: nuly(nk, N_SLOTU, 0u32),
            pool_occ: nuly(nb, 2 * N_SLOTU, 0u32),
            prof_day: nuly(np, DNY, nulovy),
            prof_week,
            teach_day: nuly(nt, DNY, (0i64, 0i64)),
            key_day: nuly(nk, DNY, (0i64, 0i64)),
            slot_units: nuly(N_SLOTU, 0, 0u32),
            hard: m.strukturalni,
            soft: 0,
        };
        st
    }

    /// Úplná kopie stavu.
    pub fn kopie(&self) -> (r: Stav)
        ensures
            stejny(r, *self),
    {
        Stav {
            start: kopie_radku(&self.start),
            prof_occ: kopie_tabulky(&self.prof_occ),
            teach_occ: kopie_tabulky(&self.teach_occ),
            teach_pref_occ: kopie_tabulky(&self.teach_pref_occ),
            key_occ: kopie_tabulky(&self.key_occ),
            pool_occ: kopie_tabulky(&self.pool_occ),
            prof_day: kopie_tabulky(&self.prof_day),
            prof_week: kopie_radku(&self.prof_week),
            teach_day: kopie_tabulky(&self.teach_day),
            key_day: kopie_tabulky(&self.key_day),
            slot_units: kopie_tabulky(&self.slot_units),
            hard: self.hard,
            soft: self.soft,
        }
    }

    /// Účelová funkce: tvrdá porušení s vahou `H` plus měkké penalizace.
    pub fn obj(&self) -> (r: i64)
        ensures
            r == crate::model::omez(crate::model::omez(self.hard * H) + self.soft),
    {
        s_add(s_mul(self.hard, H), self.soft)
    }

    /// Cena dne `d` profilu `p` podle obsazenosti.
    fn prof_den(&self, m: &Model, p: usize, d: usize) -> (r: DenC)
        requires
            self.dobry(m),
            p < m.prof@.len(),
            d < DNY,
        ensures
            (r.hard as int, r.soft as int, r.rane as int, r.odpo as int) == cena_profilu(self.prof_occ@[p as int]@, *m, p as int, d as int),
    {
        let occ = &self.prof_occ[p];
        let info = &m.prof[p];
        let (n, okna, presah, _) = beh_a_okna(occ, d);
        let rane: u8 = if occ[d * SLOTU] > 0 { 1 } else { 0 };
        let odpo: u8 = obsazeno_od(occ, d, m.odpo_od) as u8;
        let mut hard: i64 = presah as i64 + (if n > MAX_DEN_TRIDA { (n - MAX_DEN_TRIDA) as i64 } else { 0 });
        if m.za_den {
            match info.rane {
                Some(l) => {
                    if rane > l {
                        hard = hard + (rane - l) as i64;
                    }
                },
                None => {},
            }
            match info.odpo {
                Some(l) => {
                    if odpo > l {
                        hard = hard + (odpo - l) as i64;
                    }
                },
                None => {},
            }
        }
        let v = &m.vahy;
        let zaklad = s_add(
            s_add(s_mul(v.okno as i64, okna as i64), s_mul(v.rana as i64, rane as i64)),
            s_mul(info.w_odpo, odpo as i64),
        );
        let soft = s_mul(zaklad, info.size);
        DenC { hard, soft, rane, odpo }
    }

    /// Týdenní tvrdá cena profilu (jen při limitech za týden).
    fn prof_tyden(&self, m: &Model, p: usize) -> (r: i64)
        requires
            self.dobry(m),
            p < m.prof@.len(),
        ensures
            r >= 0,
            r == if m.za_den {
                0
            } else {
                nad_limit(soucet_dnu(self.prof_day@[p as int]@, DNY as int, true), m.prof@[p as int].rane) + nad_limit(
                    soucet_dnu(self.prof_day@[p as int]@, DNY as int, false),
                    m.prof@[p as int].odpo,
                )
            },
    {
        if m.za_den {
            return 0;
        }
        let info = &m.prof[p];
        let mut r: u32 = 0;
        let mut a: u32 = 0;
        let mut d: usize = 0;
        while d < DNY
            invariant
                d <= DNY,
                self.dobry(m),
                p < m.prof@.len(),
                r <= 255 * d,
                a <= 255 * d,
                r == soucet_dnu(self.prof_day@[p as int]@, d as int, true),
                a == soucet_dnu(self.prof_day@[p as int]@, d as int, false),
            decreases DNY - d,
        {
            proof {
                assert(self.prof_day@[p as int]@.len() == DNY);
            }
            r = r + self.prof_day[p][d].rane as u32;
            a = a + self.prof_day[p][d].odpo as u32;
            d = d + 1;
        }
        let mut h: i64 = 0;
        match info.rane {
            Some(l) => {
                if r > l as u32 {
                    h = h + (r - l as u32) as i64;
                }
            },
            None => {},
        }
        match info.odpo {
            Some(l) => {
                if a > l as u32 {
                    h = h + (a - l as u32) as i64;
                }
            },
            None => {},
        }
        h
    }

    /// Cena dne učitele: tvrdě hodiny nad jeho maximem, měkce okna a brzké či odpolední
    /// hodiny jeho preferovaných tříd.
    fn ucitel_den(&self, m: &Model, t: usize, d: usize) -> (r: (i64, i64))
        requires
            self.dobry(m),
            t < m.teach_max@.len(),
            d < DNY,
        ensures
            (r.0 as int, r.1 as int) == cena_ucitele(self.teach_occ@[t as int]@, self.teach_pref_occ@[t as int]@, *m, t as int, d as int),
    {
        let occ = &self.teach_occ[t];
        let (n, okna, _, _) = beh_a_okna(occ, d);
        let mx = m.teach_max[t] as usize;
        let hard: i64 = if n > mx { (n - mx) as i64 } else { 0 };
        let pref = &self.teach_pref_occ[t];
        let pref_rane: i64 = if pref[d * SLOTU] > 0 { 1 } else { 0 };
        let pref_odpo: i64 = obsazeno_od(pref, d, m.odpo_od) as i64;
        let soft = s_mul(
            s_add(s_mul(m.vahy.ucitel_okno as i64, okna as i64), s_mul(m.vahy.ucitel_preference as i64, pref_rane + pref_odpo)),
            MERITKO_UCITELE,
        );
        (hard, soft)
    }

    /// Cena dne klíče předmětu: tvrdě víc než `MAX_STEJNY_PREDMET_DEN` hodin, měkce
    /// hodiny nad délkou lekce a rozdělení do více bloků.
    fn klic_den(&self, m: &Model, k: usize, d: usize) -> (r: (i64, i64))
        requires
            self.dobry(m),
            k < m.key_len@.len(),
            d < DNY,
        ensures
            (r.0 as int, r.1 as int) == cena_klice(self.key_occ@[k as int]@, *m, k as int, d as int),
    {
        let occ = &self.key_occ[k];
        let (n, _, _, seg) = beh_a_okna(occ, d);
        let hard: i64 = if n > MAX_STEJNY_PREDMET_DEN { (n - MAX_STEJNY_PREDMET_DEN) as i64 } else { 0 };
        let kl = m.key_len[k] as usize;
        let navic: i64 = if n > kl { (n - kl) as i64 } else { 0 };
        let bloky: i64 = if seg > 1 { (seg - 1) as i64 } else { 0 };
        let soft = s_mul(s_mul(m.vahy.rozlozeni as i64, m.key_size[k]), navic + 2 * bloky);
        (hard, soft)
    }

    /// Počet hodin, kdy jednotka `u` umístěná v `s` koliduje s jinými umístěnými jednotkami.
    fn kolize(&self, m: &Model, u: usize, s: usize) -> (r: i64)
        requires
            self.dobry(m),
            u < m.n_u,
            s < N_SLOTU,
        ensures
            r >= 0,
            r == omez(kolizi_v(self.slot_units@, m.conf@[u as int]@, u as int, s as int, mensi_i(s + m.ulen@[u as int], N_SLOTU as int))),
    {
        let len = m.ulen[u] as usize;
        proof {
            assert(1 <= m.ulen@[u as int] <= 2);
        }
        let mut r: i64 = 0;
        let mut t = s;
        while t < s + len && t < N_SLOTU
            invariant
                s <= t <= mensi_i(s + len, N_SLOTU as int),
                s < N_SLOTU,
                len <= 2,
                len == m.ulen@[u as int],
                self.dobry(m),
                u < m.n_u,
                r >= 0,
                r == omez(kolizi_v(self.slot_units@, m.conf@[u as int]@, u as int, s as int, t as int)),
            decreases N_SLOTU - t,
        {
            let ghost r0 = kolizi_v(self.slot_units@, m.conf@[u as int]@, u as int, s as int, t as int);
            let mut i: usize = 0;
            while i < self.slot_units[t].len()
                invariant
                    i <= self.slot_units@[t as int]@.len(),
                    t < N_SLOTU,
                    self.dobry(m),
                    u < m.n_u,
                    r >= 0,
                    r0 >= 0,
                    r == omez(r0 + kolizi_v_hodine(self.slot_units@[t as int]@, m.conf@[u as int]@, u as int, i as int)),
                    kolizi_v_hodine(self.slot_units@[t as int]@, m.conf@[u as int]@, u as int, i as int) >= 0,
                decreases self.slot_units@[t as int]@.len() - i,
            {
                let v = self.slot_units[t][i] as usize;
                proof {
                    assert(self.slot_units@[t as int]@[i as int] < m.n_u);
                    assert(m.conf@[u as int]@.len() == m.n_u);
                }
                if v != u && m.conf[u][v] {
                    proof {
                        lemma_omez_plus_jedna(r0 + kolizi_v_hodine(self.slot_units@[t as int]@, m.conf@[u as int]@, u as int, i as int));
                    }
                    r = s_add(r, 1);
                }
                i = i + 1;
            }
            t = t + 1;
        }
        r
    }

    /// Odebere nebo přidá jednotku `u` začínající v `s` do obsazenosti a ceny kolizí,
    /// bazénů a umístění.
    fn zapis(&mut self, m: &Model, u: usize, s: usize, pridat: bool)
        requires
            old(self).dobry(m),
            u < m.n_u,
            s < N_SLOTU,
            s % SLOTU + m.ulen@[u as int] <= SLOTU,
        ensures
            final(self).dobry(m),
            final(self).start@ == old(self).start@,
            ceny_dnu_stejne(*final(self), *old(self)),
            final(self).soft == if pridat {
                omez(old(self).soft + m.uplace@[u as int]@[s as int])
            } else {
                omez(old(self).soft - m.uplace@[u as int]@[s as int])
            },
            sloty_zapsany(old(self).slot_units@, final(self).slot_units@, u as u32, s as int, s + m.ulen@[u as int], pridat),
    {
        let len = m.ulen[u] as usize;
        let kol = self.kolize(m, u, s);
        self.hard = if pridat { s_add(self.hard, kol) } else { s_sub(self.hard, kol) };
        let mut t = s;
        while t < s + len
            invariant
                s <= t <= s + len,
                s + len <= N_SLOTU,
                u < m.n_u,
                1 <= len <= 2,
                self.dobry(m),
                self.start@ == old(self).start@,
                ceny_dnu_stejne(*self, *old(self)),
                self.soft == old(self).soft,
                len == m.ulen@[u as int],
                sloty_zapsany(old(self).slot_units@, self.slot_units@, u as u32, s as int, t as int, pridat),
                old(self).slot_units@.len() == N_SLOTU,
            decreases s + len - t,
        {
            let ghost su0 = self.slot_units@;
            proof {
                assert(su0[t as int]@ == old(self).slot_units@[t as int]@) by {
                    assert(slot_zapsan(old(self).slot_units@[t as int]@, su0[t as int]@, u as u32, t as int, s as int, t as int, pridat));
                }
            }
            if pridat {
                self.slot_units[t].push(u as u32);
                proof {
                    assert(self.slot_units@[t as int]@ == su0[t as int]@.push(u as u32));
                }
            } else {
                let mut i: usize = 0;
                while i < self.slot_units[t].len() && self.slot_units[t][i] as usize != u
                    invariant
                        i <= self.slot_units@[t as int]@.len(),
                        t < N_SLOTU,
                        self.slot_units@.len() == N_SLOTU,
                        forall|j: int| 0 <= j < i ==> self.slot_units@[t as int]@[j] != u as u32,
                        u < m.n_u,
                        m.n_u <= u32::MAX,
                    decreases self.slot_units@[t as int]@.len() - i,
                {
                    i = i + 1;
                }
                if i < self.slot_units[t].len() {
                    proof {
                        assert(self.slot_units@[t as int]@[i as int] == u as u32);
                    }
                    self.slot_units[t].swap_remove(i);
                    proof {
                        lemma_swap_remove_multiset(su0[t as int]@, self.slot_units@[t as int]@, i as int);
                    }
                } else {
                    proof {
                        assert(!su0[t as int]@.contains(u as u32));
                        assert(su0[t as int]@.to_multiset().count(u as u32) == 0) by {
                            broadcast use vstd::seq_lib::group_to_multiset_ensures;
                        }
                        assert(su0[t as int]@.to_multiset().remove(u as u32) =~= su0[t as int]@.to_multiset());
                    }
                }
            }
            let ghost su1 = self.slot_units@;
            proof {
                assert(sloty_zapsany(old(self).slot_units@, su1, u as u32, s as int, t + 1, pridat)) by {
                    assert forall|t2: int| 0 <= t2 < N_SLOTU implies #[trigger] slot_zapsan(old(self).slot_units@[t2]@, su1[t2]@, u as u32, t2, s as int, t + 1, pridat) by {
                        assert(slot_zapsan(old(self).slot_units@[t2]@, su0[t2]@, u as u32, t2, s as int, t as int, pridat));
                        if t2 != t {
                            assert(su1[t2] == su0[t2]);
                        } else if pridat {
                            assert(su1[t2]@ == old(self).slot_units@[t2]@.push(u as u32));
                        } else {
                            assert(su1[t2]@.to_multiset() == old(self).slot_units@[t2]@.to_multiset().remove(u as u32));
                        }
                    }
                }
            }
            proof {
                assert forall|t2: int, i2: int|
                    0 <= t2 < N_SLOTU && 0 <= i2 < self.slot_units@[t2]@.len() implies #[trigger] self.slot_units@[t2]@[i2]
                        < m.n_u by {
                    if t2 != t {
                        assert(self.slot_units@[t2] == su0[t2]);
                    } else if pridat {
                        if i2 < su0[t2]@.len() {
                            assert(self.slot_units@[t2]@[i2] == su0[t2]@[i2]);
                        }
                    } else {
                        let puv = su0[t2]@;
                        assert(self.slot_units@[t2]@.len() <= puv.len());
                        if self.slot_units@[t2]@.len() < puv.len() {
                            assert(self.slot_units@[t2]@[i2] == puv[i2] || self.slot_units@[t2]@[i2] == puv.last());
                        } else {
                            assert(self.slot_units@[t2]@[i2] == puv[i2]);
                        }
                    }
                }
            }
            let mut k: usize = 0;
            while k < m.uprof[u].len()
                invariant
                    k <= m.uprof@[u as int]@.len(),
                    t < N_SLOTU,
                    u < m.n_u,
                    self.dobry(m),
                    self.start@ == old(self).start@,
                    ceny_dnu_stejne(*self, *old(self)),
                    self.soft == old(self).soft,
                    self.slot_units@ == su1,
                decreases m.uprof@[u as int]@.len() - k,
            {
                let p = m.uprof[u][k] as usize;
                proof {
                    assert(m.uprof@[u as int]@[k as int] < m.prof@.len());
                }
                posun(&mut self.prof_occ, p, t, pridat);
                k = k + 1;
            }
            let mut k: usize = 0;
            while k < m.uteach[u].len()
                invariant
                    k <= m.uteach@[u as int]@.len(),
                    t < N_SLOTU,
                    u < m.n_u,
                    self.dobry(m),
                    self.start@ == old(self).start@,
                    ceny_dnu_stejne(*self, *old(self)),
                    self.soft == old(self).soft,
                    self.slot_units@ == su1,
                decreases m.uteach@[u as int]@.len() - k,
            {
                let x = m.uteach[u][k] as usize;
                proof {
                    assert(m.uteach@[u as int]@[k as int] < m.teach_max@.len());
                }
                posun(&mut self.teach_occ, x, t, pridat);
                k = k + 1;
            }
            let mut k: usize = 0;
            while k < m.uteach_pref[u].len()
                invariant
                    k <= m.uteach_pref@[u as int]@.len(),
                    t < N_SLOTU,
                    u < m.n_u,
                    self.dobry(m),
                    self.start@ == old(self).start@,
                    ceny_dnu_stejne(*self, *old(self)),
                    self.soft == old(self).soft,
                    self.slot_units@ == su1,
                decreases m.uteach_pref@[u as int]@.len() - k,
            {
                let x = m.uteach_pref[u][k] as usize;
                proof {
                    assert(m.uteach_pref@[u as int]@[k as int] < m.teach_max@.len());
                }
                posun(&mut self.teach_pref_occ, x, t, pridat);
                k = k + 1;
            }
            let mut k: usize = 0;
            while k < m.ukeys[u].len()
                invariant
                    k <= m.ukeys@[u as int]@.len(),
                    t < N_SLOTU,
                    u < m.n_u,
                    self.dobry(m),
                    self.start@ == old(self).start@,
                    ceny_dnu_stejne(*self, *old(self)),
                    self.soft == old(self).soft,
                    self.slot_units@ == su1,
                decreases m.ukeys@[u as int]@.len() - k,
            {
                let x = m.ukeys[u][k] as usize;
                proof {
                    assert(m.ukeys@[u as int]@[k as int] < m.key_len@.len());
                }
                posun(&mut self.key_occ, x, t, pridat);
                k = k + 1;
            }
            let mut k: usize = 0;
            while k < m.upools[u].len()
                invariant
                    k <= m.upools@[u as int]@.len(),
                    t < N_SLOTU,
                    u < m.n_u,
                    self.dobry(m),
                    self.start@ == old(self).start@,
                    ceny_dnu_stejne(*self, *old(self)),
                    self.soft == old(self).soft,
                    self.slot_units@ == su1,
                decreases m.upools@[u as int]@.len() - k,
            {
                let (p, mask) = m.upools[u][k];
                let p = p as usize;
                let cap = m.pool_cap[p];
                let mut w: usize = 0;
                while w < 2
                    invariant
                        w <= 2,
                        p < m.pool_cap@.len(),
                        t < N_SLOTU,
                        self.dobry(m),
                        self.start@ == old(self).start@,
                        ceny_dnu_stejne(*self, *old(self)),
                        self.soft == old(self).soft,
                        self.slot_units@ == su1,
                    decreases 2 - w,
                {
                    if v_tydnu(mask, w) {
                        let c = w * N_SLOTU + t;
                        let o = self.pool_occ[p][c];
                        let pred: i64 = if o > cap as u32 { (o - cap as u32) as i64 } else { 0 };
                        let n = posun(&mut self.pool_occ, p, c, pridat);
                        let po: i64 = if n > cap as u32 { (n - cap as u32) as i64 } else { 0 };
                        self.hard = s_add(self.hard, po - pred);
                    }
                    w = w + 1;
                }
                k = k + 1;
            }
            t = t + 1;
        }
        proof {
            assert(m.uplace@[u as int]@.len() == N_SLOTU);
        }
        let c = m.uplace[u][s];
        self.soft = if pridat { s_add(self.soft, c) } else { s_sub(self.soft, c) };
    }
}

/// Cena dne `d` profilu `p` s obsazeností `occ`: (tvrdá, měkká, raná hodina, odpolední hodiny).
/// Tvrdě přesah bloků, hodiny nad `MAX_DEN_TRIDA` a při limitech za den přesah raných
/// a odpoledních hodin; měkce okna, raná hodina a odpolední hodiny, váženo velikostí profilu.
pub open spec fn cena_profilu(occ: Seq<u32>, m: Model, p: int, d: int) -> (int, int, int, int) {
    let sd = den_obs(occ, d);
    let b = beh_spec(sd);
    let info = m.prof@[p];
    let rane: int = if sd[0] { 1 } else { 0 };
    let odpo: int = crate::validation::obsazenych_od(sd, SLOTU as int, m.odpo_od as int) as int;
    let hard = b.2 + (if b.0 > MAX_DEN_TRIDA { b.0 - MAX_DEN_TRIDA } else { 0 }) + (if m.za_den {
        nad_limit(rane, info.rane) + nad_limit(odpo, info.odpo)
    } else {
        0
    });
    let soft = omez(omez(omez(omez(m.vahy.okno as int * b.1) + omez(m.vahy.rana as int * rane)) + omez(info.w_odpo * odpo)) * info.size);
    (hard, soft, rane, odpo)
}

/// Cena dne `d` učitele `t` (obsazenost `occ`, hodiny preferovaných tříd `pref`): tvrdě
/// hodiny nad maximem, měkce okna a brzké či odpolední hodiny preferovaných tříd.
pub open spec fn cena_ucitele(occ: Seq<u32>, pref: Seq<u32>, m: Model, t: int, d: int) -> (int, int) {
    let b = beh_spec(den_obs(occ, d));
    let pd = den_obs(pref, d);
    let pr = (if pd[0] { 1int } else { 0int }) + crate::validation::obsazenych_od(pd, SLOTU as int, m.odpo_od as int);
    (
        if b.0 > m.teach_max@[t] { b.0 - m.teach_max@[t] } else { 0 },
        omez(omez(omez(m.vahy.ucitel_okno as int * b.1) + omez(m.vahy.ucitel_preference as int * pr)) * MERITKO_UCITELE),
    )
}

/// Cena dne `d` klíče předmětu `k`: tvrdě hodiny nad `MAX_STEJNY_PREDMET_DEN`, měkce hodiny
/// nad délkou lekce a rozdělení do více bloků.
pub open spec fn cena_klice(occ: Seq<u32>, m: Model, k: int, d: int) -> (int, int) {
    let b = beh_spec(den_obs(occ, d));
    let kl = m.key_len@[k] as int;
    let navic = if b.0 > kl { b.0 - kl } else { 0 };
    let bloky = if b.3 > 1 { b.3 - 1 } else { 0 };
    (
        if b.0 > MAX_STEJNY_PREDMET_DEN { b.0 - MAX_STEJNY_PREDMET_DEN } else { 0 },
        omez(omez(m.vahy.rozlozeni as int * m.key_size@[k]) * (navic + 2 * bloky)),
    )
}

/// Uložená cena dne `d` profilu `p` v cenách dnů `dny` odpovídá obsazenosti stavu `o`.
pub open spec fn den_profilu_prepocten(dny: Seq<Vec<DenC>>, o: Stav, m: Model, p: int, d: int) -> bool {
    let c = dny[p]@[d];
    (c.hard as int, c.soft as int, c.rane as int, c.odpo as int) == cena_profilu(o.prof_occ@[p]@, m, p, d)
}

/// Uložená cena dne `d` učitele `t` v cenách dnů `dny` odpovídá obsazenosti stavu `o`.
pub open spec fn den_ucitele_prepocten(dny: Seq<Vec<(i64, i64)>>, o: Stav, m: Model, t: int, d: int) -> bool {
    let c = dny[t]@[d];
    (c.0 as int, c.1 as int) == cena_ucitele(o.teach_occ@[t]@, o.teach_pref_occ@[t]@, m, t, d)
}

/// Uložená cena dne `d` klíče `k` v cenách dnů `dny` odpovídá obsazenosti stavu `o`.
pub open spec fn den_klice_prepocten(dny: Seq<Vec<(i64, i64)>>, o: Stav, m: Model, k: int, d: int) -> bool {
    let c = dny[k]@[d];
    (c.0 as int, c.1 as int) == cena_klice(o.key_occ@[k]@, m, k, d)
}

/// Obsazenost (profily, učitelé, klíče, bazény, jednotky v hodinách) se neliší.
pub open spec fn obsazenost_stejna(a: Stav, b: Stav) -> bool {
    &&& a.prof_occ@ == b.prof_occ@
    &&& a.teach_occ@ == b.teach_occ@
    &&& a.teach_pref_occ@ == b.teach_pref_occ@
    &&& a.key_occ@ == b.key_occ@
    &&& a.pool_occ@ == b.pool_occ@
    &&& a.slot_units@ == b.slot_units@
}

/// Uložené ceny dnů profilů, učitelů a klíčů se neliší.
pub open spec fn ceny_dnu_stejne(a: Stav, b: Stav) -> bool {
    a.prof_day@ == b.prof_day@ && a.prof_week@ == b.prof_week@ && a.teach_day@ == b.teach_day@ && a.key_day@ == b.key_day@
}

/// Jednotky hodiny `t2` po zápisu: je-li hodina mezi `s` a `t`, jednotka `u` přibude na konec
/// (přidání), nebo ubude jeden její výskyt (odebrání); jinak beze změny.
pub open spec fn slot_zapsan(a: Seq<u32>, b: Seq<u32>, u: u32, t2: int, s: int, t: int, pridat: bool) -> bool {
    if !(s <= t2 < t) {
        b == a
    } else if pridat {
        b == a.push(u)
    } else {
        b.to_multiset() == a.to_multiset().remove(u)
    }
}

/// Hodiny `s..t` jsou zapsané podle `slot_zapsan`, ostatní beze změny.
pub open spec fn sloty_zapsany(a: Seq<Vec<u32>>, b: Seq<Vec<u32>>, u: u32, s: int, t: int, pridat: bool) -> bool {
    &&& b.len() == a.len()
    &&& forall|t2: int| 0 <= t2 < a.len() ==> #[trigger] slot_zapsan(a[t2]@, b[t2]@, u, t2, s, t, pridat)
}

proof fn lemma_swap_remove_multiset(a: Seq<u32>, b: Seq<u32>, i: int)
    requires
        0 <= i < a.len(),
        b == a.update(i, a.last()).drop_last(),
    ensures
        b.to_multiset() == a.to_multiset().remove(a[i]),
{
    broadcast use vstd::seq_lib::group_to_multiset_ensures;
    let c = a.update(i, a.last());
    assert(a.to_multiset().remove(a[i]) =~= a.remove(i).to_multiset());
    if i == a.len() - 1 {
        assert(b =~= a.remove(i));
    } else {
        assert(b.to_multiset() =~= a.remove(i).to_multiset()) by {
            assert(a.remove(i).to_multiset() =~= a.drop_last().remove(i).to_multiset().insert(a.last())) by {
                assert(a.remove(i) =~= a.drop_last().remove(i).push(a.last()));
            }
            assert(b =~= a.drop_last().update(i, a.last()));
            assert(a.drop_last().update(i, a.last()).to_multiset() =~= a.drop_last().to_multiset().remove(a[i]).insert(a.last()));
            assert(a.drop_last().remove(i).to_multiset() =~= a.drop_last().to_multiset().remove(a[i]));
        }
    }
}

/// Slot je pro jednotku povolený začátek.
pub open spec fn povoleny(m: &Model, u: int, s: u8) -> bool {
    s < N_SLOTU && m.allowed@[u]@[s as int]
}

/// Jednotka začínající ve slotu `s` se vejde do dne.
pub open spec fn vejde_se(m: &Model, u: int, s: u8) -> bool {
    s < N_SLOTU && (s as int) % (SLOTU as int) + m.ulen@[u] <= SLOTU
}

/// Jednotky hodiny `t` (jako multimnožina `a`) po přesunu jednotky `u` délky `len` ze začátku
/// `z` na začátek `na`: odebere se výskyt ze staré polohy a přidá se v nové.
pub open spec fn hodina_po_presunu(a: Multiset<u32>, u: u32, len: u8, z: u8, na: u8, t: int) -> Multiset<u32> {
    let bez = if pokryva(z, len, t) { a.remove(u) } else { a };
    if pokryva(na, len, t) { bez.insert(u) } else { bez }
}

/// Den `d` je dotčen přesunem ze začátku `z` na začátek `na`.
pub open spec fn dotceny_den(z: u8, na: u8, d: int) -> bool {
    (z != NENI && z as int / SLOTU as int == d) || (na != NENI && na as int / SLOTU as int == d)
}

/// Změna účelové funkce mezi dvěma stavy (tvrdá porušení s vahou `H` plus měkké).
pub open spec fn zmena_ceny(h0: i64, s0: i64, h1: i64, s1: i64) -> int {
    crate::model::omez(crate::model::omez(crate::model::omez(h1 - h0) * H) + crate::model::omez(s1 - s0))
}

impl Stav {
    /// Odečte (nebo přičte) uložené ceny dnů `dny` dotčených profilů, učitelů a klíčů
    /// jednotky `u`; při přičtení je napřed přepočítá z obsazenosti.
    fn ceny_dnu(&mut self, m: &Model, u: usize, dny: &Vec<usize>, prepocitat: bool)
        requires
            old(self).dobry(m),
            u < m.n_u,
            forall|k: int| 0 <= k < dny@.len() ==> (#[trigger] dny@[k]) < DNY,
        ensures
            final(self).dobry(m),
            final(self).start@ == old(self).start@,
            obsazenost_stejna(*final(self), *old(self)),
            !prepocitat ==> ceny_dnu_stejne(*final(self), *old(self)),
            prepocitat ==> forall|k: int, i: int|
                0 <= k < m.uprof@[u as int]@.len() && 0 <= i < dny@.len() ==> #[trigger] den_profilu_prepocten(final(self).prof_day@,
                    *old(self),
                    *m,
                    m.uprof@[u as int]@[k] as int,
                    dny@[i] as int,
                ),
            prepocitat ==> forall|k: int, i: int|
                0 <= k < m.uteach@[u as int]@.len() && 0 <= i < dny@.len() ==> #[trigger] den_ucitele_prepocten(final(self).teach_day@,
                    *old(self),
                    *m,
                    m.uteach@[u as int]@[k] as int,
                    dny@[i] as int,
                ),
            prepocitat ==> forall|k: int, i: int|
                0 <= k < m.ukeys@[u as int]@.len() && 0 <= i < dny@.len() ==> #[trigger] den_klice_prepocten(final(self).key_day@,
                    *old(self),
                    *m,
                    m.ukeys@[u as int]@[k] as int,
                    dny@[i] as int,
                ),
    {
        let mut k: usize = 0;
        while k < m.uprof[u].len()
            invariant
                k <= m.uprof@[u as int]@.len(),
                u < m.n_u,
                self.dobry(m),
                prepocitat ==> forall|k2: int, i2: int|
                    0 <= k2 < k && 0 <= i2 < dny@.len() ==> #[trigger] den_profilu_prepocten(self.prof_day@, *old(self), *m, m.uprof@[u as int]@[k2] as int, dny@[i2] as int),
                self.start@ == old(self).start@,
                obsazenost_stejna(*self, *old(self)),
                !prepocitat ==> ceny_dnu_stejne(*self, *old(self)),
                u < m.n_u,
                forall|x: int| 0 <= x < dny@.len() ==> (#[trigger] dny@[x]) < DNY,
            decreases m.uprof@[u as int]@.len() - k,
        {
            let p = m.uprof[u][k] as usize;
            proof {
                assert(m.uprof@[u as int]@[k as int] < m.prof@.len());
            }
            if !prepocitat {
                self.hard = s_sub(self.hard, self.prof_week[p]);
            }
            let mut i: usize = 0;
            while i < dny.len()
                invariant
                    i <= dny@.len(),
                    p < m.prof@.len(),
                    self.dobry(m),
                    k < m.uprof@[u as int]@.len(),
                    p == m.uprof@[u as int]@[k as int],
                    prepocitat ==> forall|k2: int, i2: int|
                        0 <= k2 < k && 0 <= i2 < dny@.len() ==> #[trigger] den_profilu_prepocten(self.prof_day@, *old(self), *m, m.uprof@[u as int]@[k2] as int, dny@[i2] as int),
                    prepocitat ==> forall|i2: int| 0 <= i2 < i ==> #[trigger] den_profilu_prepocten(self.prof_day@, *old(self), *m, p as int, dny@[i2] as int),
                    self.start@ == old(self).start@,
                    obsazenost_stejna(*self, *old(self)),
                    !prepocitat ==> ceny_dnu_stejne(*self, *old(self)),
                    u < m.n_u,
                    forall|x: int| 0 <= x < dny@.len() ==> (#[trigger] dny@[x]) < DNY,
                decreases dny@.len() - i,
            {
                let d = dny[i];
                proof {
                    assert(self.prof_day@[p as int]@.len() == DNY);
                }
                if prepocitat {
                    let ghost st0 = *self;
                    let c = self.prof_den(m, p, d);
                    let ghost pd0 = self.prof_day@;
                    nastav2(&mut self.prof_day, p, d, c);
                    proof {
                        assert forall|k2: int, i2: int|
                            0 <= k2 < k && 0 <= i2 < dny@.len() implies #[trigger] den_profilu_prepocten(self.prof_day@, *old(self), *m, m.uprof@[u as int]@[k2] as int, dny@[i2] as int) by {
                            let p2 = m.uprof@[u as int]@[k2] as int;
                            assert(p2 < m.prof@.len());
                            if p2 != p || dny@[i2] != d {
                                assert(den_profilu_prepocten(st0.prof_day@, *old(self), *m, p2, dny@[i2] as int));
                                assert(self.prof_day@[p2]@[dny@[i2] as int] == pd0[p2]@[dny@[i2] as int]);
                            } else {
                                assert(self.prof_day@[p as int]@[d as int] == c);
                            }
                        }
                        assert forall|i2: int| 0 <= i2 < i + 1 implies #[trigger] den_profilu_prepocten(self.prof_day@, *old(self), *m, p as int, dny@[i2] as int) by {
                            if dny@[i2] != d {
                                assert(den_profilu_prepocten(st0.prof_day@, *old(self), *m, p as int, dny@[i2] as int));
                                assert(self.prof_day@[p as int]@[dny@[i2] as int] == pd0[p as int]@[dny@[i2] as int]);
                            } else {
                                assert(self.prof_day@[p as int]@[d as int] == c);
                            }
                        }
                    }
                    self.hard = s_add(self.hard, c.hard);
                    self.soft = s_add(self.soft, c.soft);
                } else {
                    let c = self.prof_day[p][d];
                    self.hard = s_sub(self.hard, c.hard);
                    self.soft = s_sub(self.soft, c.soft);
                }
                i = i + 1;
            }
            proof {
                if prepocitat {
                    assert forall|k2: int, i2: int|
                        0 <= k2 < k + 1 && 0 <= i2 < dny@.len() implies #[trigger] den_profilu_prepocten(self.prof_day@, *old(self), *m, m.uprof@[u as int]@[k2] as int, dny@[i2] as int) by {
                        if k2 == k {
                            assert(den_profilu_prepocten(self.prof_day@, *old(self), *m, p as int, dny@[i2] as int));
                        }
                    }
                }
            }
            if prepocitat {
                let w = self.prof_tyden(m, p);
                self.prof_week.set(p, w);
                self.hard = s_add(self.hard, w);
            }
            k = k + 1;
        }
        let mut k: usize = 0;
        while k < m.uteach[u].len()
            invariant
                k <= m.uteach@[u as int]@.len(),
                u < m.n_u,
                self.dobry(m),
                prepocitat ==> forall|k2: int, i2: int|
                    0 <= k2 < m.uprof@[u as int]@.len() && 0 <= i2 < dny@.len() ==> #[trigger] den_profilu_prepocten(self.prof_day@, *old(self), *m, m.uprof@[u as int]@[k2] as int, dny@[i2] as int),
                prepocitat ==> forall|k2: int, i2: int|
                    0 <= k2 < k && 0 <= i2 < dny@.len() ==> #[trigger] den_ucitele_prepocten(self.teach_day@, *old(self), *m, m.uteach@[u as int]@[k2] as int, dny@[i2] as int),
                self.start@ == old(self).start@,
                obsazenost_stejna(*self, *old(self)),
                !prepocitat ==> ceny_dnu_stejne(*self, *old(self)),
                u < m.n_u,
                forall|x: int| 0 <= x < dny@.len() ==> (#[trigger] dny@[x]) < DNY,
            decreases m.uteach@[u as int]@.len() - k,
        {
            let t = m.uteach[u][k] as usize;
            proof {
                assert(m.uteach@[u as int]@[k as int] < m.teach_max@.len());
            }
            let mut i: usize = 0;
            while i < dny.len()
                invariant
                    i <= dny@.len(),
                    t < m.teach_max@.len(),
                    self.dobry(m),
                    k < m.uteach@[u as int]@.len(),
                    t == m.uteach@[u as int]@[k as int],
                    prepocitat ==> forall|k2: int, i2: int|
                        0 <= k2 < m.uprof@[u as int]@.len() && 0 <= i2 < dny@.len() ==> #[trigger] den_profilu_prepocten(self.prof_day@, *old(self), *m, m.uprof@[u as int]@[k2] as int, dny@[i2] as int),
                    prepocitat ==> forall|k2: int, i2: int|
                        0 <= k2 < k && 0 <= i2 < dny@.len() ==> #[trigger] den_ucitele_prepocten(self.teach_day@, *old(self), *m, m.uteach@[u as int]@[k2] as int, dny@[i2] as int),
                    prepocitat ==> forall|i2: int| 0 <= i2 < i ==> #[trigger] den_ucitele_prepocten(self.teach_day@, *old(self), *m, t as int, dny@[i2] as int),
                    self.start@ == old(self).start@,
                    obsazenost_stejna(*self, *old(self)),
                    !prepocitat ==> ceny_dnu_stejne(*self, *old(self)),
                    u < m.n_u,
                    forall|x: int| 0 <= x < dny@.len() ==> (#[trigger] dny@[x]) < DNY,
                decreases dny@.len() - i,
            {
                let d = dny[i];
                proof {
                    assert(self.teach_day@[t as int]@.len() == DNY);
                }
                if prepocitat {
                    let ghost st0 = *self;
                    let c = self.ucitel_den(m, t, d);
                    let ghost td0 = self.teach_day@;
                    nastav2(&mut self.teach_day, t, d, c);
                    proof {
                        assert forall|k2: int, i2: int|
                            0 <= k2 < k && 0 <= i2 < dny@.len() implies #[trigger] den_ucitele_prepocten(self.teach_day@, *old(self), *m, m.uteach@[u as int]@[k2] as int, dny@[i2] as int) by {
                            let t2 = m.uteach@[u as int]@[k2] as int;
                            assert(t2 < m.teach_max@.len());
                            if t2 != t || dny@[i2] != d {
                                assert(den_ucitele_prepocten(st0.teach_day@, *old(self), *m, t2, dny@[i2] as int));
                                assert(self.teach_day@[t2]@[dny@[i2] as int] == td0[t2]@[dny@[i2] as int]);
                            } else {
                                assert(self.teach_day@[t as int]@[d as int] == c);
                            }
                        }
                        assert forall|i2: int| 0 <= i2 < i + 1 implies #[trigger] den_ucitele_prepocten(self.teach_day@, *old(self), *m, t as int, dny@[i2] as int) by {
                            if dny@[i2] != d {
                                assert(den_ucitele_prepocten(st0.teach_day@, *old(self), *m, t as int, dny@[i2] as int));
                                assert(self.teach_day@[t as int]@[dny@[i2] as int] == td0[t as int]@[dny@[i2] as int]);
                            } else {
                                assert(self.teach_day@[t as int]@[d as int] == c);
                            }
                        }
                    }
                    self.hard = s_add(self.hard, c.0);
                    self.soft = s_add(self.soft, c.1);
                } else {
                    let c = self.teach_day[t][d];
                    self.hard = s_sub(self.hard, c.0);
                    self.soft = s_sub(self.soft, c.1);
                }
                i = i + 1;
            }
            k = k + 1;
        }
        let mut k: usize = 0;
        while k < m.ukeys[u].len()
            invariant
                k <= m.ukeys@[u as int]@.len(),
                u < m.n_u,
                self.dobry(m),
                prepocitat ==> forall|k2: int, i2: int|
                    0 <= k2 < m.uprof@[u as int]@.len() && 0 <= i2 < dny@.len() ==> #[trigger] den_profilu_prepocten(self.prof_day@, *old(self), *m, m.uprof@[u as int]@[k2] as int, dny@[i2] as int),
                prepocitat ==> forall|k2: int, i2: int|
                    0 <= k2 < m.uteach@[u as int]@.len() && 0 <= i2 < dny@.len() ==> #[trigger] den_ucitele_prepocten(self.teach_day@, *old(self), *m, m.uteach@[u as int]@[k2] as int, dny@[i2] as int),
                prepocitat ==> forall|k2: int, i2: int|
                    0 <= k2 < k && 0 <= i2 < dny@.len() ==> #[trigger] den_klice_prepocten(self.key_day@, *old(self), *m, m.ukeys@[u as int]@[k2] as int, dny@[i2] as int),
                self.start@ == old(self).start@,
                obsazenost_stejna(*self, *old(self)),
                !prepocitat ==> ceny_dnu_stejne(*self, *old(self)),
                u < m.n_u,
                forall|x: int| 0 <= x < dny@.len() ==> (#[trigger] dny@[x]) < DNY,
            decreases m.ukeys@[u as int]@.len() - k,
        {
            let key = m.ukeys[u][k] as usize;
            proof {
                assert(m.ukeys@[u as int]@[k as int] < m.key_len@.len());
            }
            let mut i: usize = 0;
            while i < dny.len()
                invariant
                    i <= dny@.len(),
                    key < m.key_len@.len(),
                    self.dobry(m),
                    k < m.ukeys@[u as int]@.len(),
                    key == m.ukeys@[u as int]@[k as int],
                    prepocitat ==> forall|k2: int, i2: int|
                        0 <= k2 < m.uprof@[u as int]@.len() && 0 <= i2 < dny@.len() ==> #[trigger] den_profilu_prepocten(self.prof_day@, *old(self), *m, m.uprof@[u as int]@[k2] as int, dny@[i2] as int),
                    prepocitat ==> forall|k2: int, i2: int|
                        0 <= k2 < m.uteach@[u as int]@.len() && 0 <= i2 < dny@.len() ==> #[trigger] den_ucitele_prepocten(self.teach_day@, *old(self), *m, m.uteach@[u as int]@[k2] as int, dny@[i2] as int),
                    prepocitat ==> forall|k2: int, i2: int|
                        0 <= k2 < k && 0 <= i2 < dny@.len() ==> #[trigger] den_klice_prepocten(self.key_day@, *old(self), *m, m.ukeys@[u as int]@[k2] as int, dny@[i2] as int),
                    prepocitat ==> forall|i2: int| 0 <= i2 < i ==> #[trigger] den_klice_prepocten(self.key_day@, *old(self), *m, key as int, dny@[i2] as int),
                    self.start@ == old(self).start@,
                    obsazenost_stejna(*self, *old(self)),
                    !prepocitat ==> ceny_dnu_stejne(*self, *old(self)),
                    u < m.n_u,
                    forall|x: int| 0 <= x < dny@.len() ==> (#[trigger] dny@[x]) < DNY,
                decreases dny@.len() - i,
            {
                let d = dny[i];
                proof {
                    assert(self.key_day@[key as int]@.len() == DNY);
                }
                if prepocitat {
                    let ghost st0 = *self;
                    let c = self.klic_den(m, key, d);
                    let ghost kd0 = self.key_day@;
                    nastav2(&mut self.key_day, key, d, c);
                    proof {
                        assert forall|k2: int, i2: int|
                            0 <= k2 < k && 0 <= i2 < dny@.len() implies #[trigger] den_klice_prepocten(self.key_day@, *old(self), *m, m.ukeys@[u as int]@[k2] as int, dny@[i2] as int) by {
                            let q2 = m.ukeys@[u as int]@[k2] as int;
                            assert(q2 < m.key_len@.len());
                            if q2 != key || dny@[i2] != d {
                                assert(den_klice_prepocten(st0.key_day@, *old(self), *m, q2, dny@[i2] as int));
                                assert(self.key_day@[q2]@[dny@[i2] as int] == kd0[q2]@[dny@[i2] as int]);
                            } else {
                                assert(self.key_day@[key as int]@[d as int] == c);
                            }
                        }
                        assert forall|i2: int| 0 <= i2 < i + 1 implies #[trigger] den_klice_prepocten(self.key_day@, *old(self), *m, key as int, dny@[i2] as int) by {
                            if dny@[i2] != d {
                                assert(den_klice_prepocten(st0.key_day@, *old(self), *m, key as int, dny@[i2] as int));
                                assert(self.key_day@[key as int]@[dny@[i2] as int] == kd0[key as int]@[dny@[i2] as int]);
                            } else {
                                assert(self.key_day@[key as int]@[d as int] == c);
                            }
                        }
                    }
                    self.hard = s_add(self.hard, c.0);
                    self.soft = s_add(self.soft, c.1);
                } else {
                    let c = self.key_day[key][d];
                    self.hard = s_sub(self.hard, c.0);
                    self.soft = s_sub(self.soft, c.1);
                }
                i = i + 1;
            }
            k = k + 1;
        }
    }

    /// Přesune jednotku na nový začátek, který se vejde do dne (nebo ji odebere, `NENI`),
    /// a vrátí změnu účelové funkce.
    pub fn presun(&mut self, m: &Model, u: usize, new: u8) -> (r: i64)
        requires
            old(self).dobry(m),
            u < m.n_u,
            new == NENI || vejde_se(m, u as int, new),
        ensures
            final(self).dobry(m),
            final(self).start@ == old(self).start@.update(u as int, new),
            r == zmena_ceny(old(self).hard, old(self).soft, final(self).hard, final(self).soft),
            old(self).start@[u as int] == new ==> *final(self) == *old(self),
            old(self).start@[u as int] != new ==> forall|t: int|
                0 <= t < N_SLOTU ==> #[trigger] final(self).slot_units@[t]@.to_multiset() == hodina_po_presunu(
                    old(self).slot_units@[t]@.to_multiset(),
                    u as u32,
                    m.ulen@[u as int],
                    old(self).start@[u as int],
                    new,
                    t,
                ),
            old(self).start@[u as int] != new ==> forall|k: int, d: int|
                0 <= k < m.uprof@[u as int]@.len() && dotceny_den(old(self).start@[u as int], new, d)
                    ==> #[trigger] den_profilu_prepocten(final(self).prof_day@, *final(self), *m, m.uprof@[u as int]@[k] as int, d),
            old(self).start@[u as int] != new ==> forall|k: int, d: int|
                0 <= k < m.uteach@[u as int]@.len() && dotceny_den(old(self).start@[u as int], new, d)
                    ==> #[trigger] den_ucitele_prepocten(final(self).teach_day@, *final(self), *m, m.uteach@[u as int]@[k] as int, d),
            old(self).start@[u as int] != new ==> forall|k: int, d: int|
                0 <= k < m.ukeys@[u as int]@.len() && dotceny_den(old(self).start@[u as int], new, d)
                    ==> #[trigger] den_klice_prepocten(final(self).key_day@, *final(self), *m, m.ukeys@[u as int]@[k] as int, d),
    {
        broadcast use vstd::seq_lib::group_to_multiset_ensures;
        let old_s = self.start[u];
        let ghost len = m.ulen@[u as int];
        if old_s == new {
            proof {
                assert(self.start@ =~= old(self).start@.update(u as int, new));
            }
            return 0;
        }
        let h0 = self.hard;
        let s0 = self.soft;
        let mut dny: Vec<usize> = Vec::new();
        if old_s != NENI {
            dny.push(old_s as usize / SLOTU);
        }
        if new != NENI {
            let d = new as usize / SLOTU;
            if dny.len() == 0 || dny[0] != d {
                dny.push(d);
            }
        }
        proof {
            assert forall|d: int| #[trigger] dotceny_den(old_s, new, d) implies exists|i: int| 0 <= i < dny@.len() && dny@[i] == d by {
                if old_s != NENI && old_s as int / SLOTU as int == d {
                    assert(dny@[0] == d);
                } else {
                    assert(dny@[dny@.len() - 1] == d);
                }
            }
        }
        self.ceny_dnu(m, u, &dny, false);
        proof {
            assert(self.start@[u as int] == old_s);
            assert(old_s == NENI || vejde_se(m, u as int, old_s));
        }
        let ghost su0 = self.slot_units@;
        if old_s != NENI {
            self.zapis(m, u, old_s as usize, false);
        }
        let ghost su1 = self.slot_units@;
        if new != NENI {
            self.zapis(m, u, new as usize, true);
        }
        let ghost su2 = self.slot_units@;
        proof {
            assert forall|t: int| 0 <= t < N_SLOTU implies #[trigger] su2[t]@.to_multiset() == hodina_po_presunu(
                su0[t]@.to_multiset(), u as u32, len, old_s, new, t) by {
                if old_s != NENI {
                    assert(slot_zapsan(su0[t]@, su1[t]@, u as u32, t, old_s as int, old_s + len, false));
                } else {
                    assert(su1 == su0);
                }
                if new != NENI {
                    assert(slot_zapsan(su1[t]@, su2[t]@, u as u32, t, new as int, new + len, true));
                } else {
                    assert(su2 == su1);
                }
            }
        }
        self.start.set(u, new);
        let ghost pred = *self;
        self.ceny_dnu(m, u, &dny, true);
        proof {
            assert forall|k: int, d: int|
                0 <= k < m.uprof@[u as int]@.len() && dotceny_den(old_s, new, d)
                    implies #[trigger] den_profilu_prepocten(self.prof_day@, *self, *m, m.uprof@[u as int]@[k] as int, d) by {
                let i = choose|i: int| 0 <= i < dny@.len() && dny@[i] == d;
                assert(den_profilu_prepocten(self.prof_day@, pred, *m, m.uprof@[u as int]@[k] as int, dny@[i] as int));
            }
            assert forall|k: int, d: int|
                0 <= k < m.uteach@[u as int]@.len() && dotceny_den(old_s, new, d)
                    implies #[trigger] den_ucitele_prepocten(self.teach_day@, *self, *m, m.uteach@[u as int]@[k] as int, d) by {
                let i = choose|i: int| 0 <= i < dny@.len() && dny@[i] == d;
                assert(den_ucitele_prepocten(self.teach_day@, pred, *m, m.uteach@[u as int]@[k] as int, dny@[i] as int));
            }
            assert forall|k: int, d: int|
                0 <= k < m.ukeys@[u as int]@.len() && dotceny_den(old_s, new, d)
                    implies #[trigger] den_klice_prepocten(self.key_day@, *self, *m, m.ukeys@[u as int]@[k] as int, d) by {
                let i = choose|i: int| 0 <= i < dny@.len() && dny@[i] == d;
                assert(den_klice_prepocten(self.key_day@, pred, *m, m.ukeys@[u as int]@[k] as int, dny@[i] as int));
            }
        }
        s_add(s_mul(s_sub(self.hard, h0), H), s_sub(self.soft, s0))
    }

    /// Nastaví všechny začátky najednou.
    pub fn nastav(&mut self, m: &Model, starty: &Vec<u8>)
        requires
            old(self).dobry(m),
            starty@.len() == m.n_u,
            forall|u: int| 0 <= u < m.n_u ==> #[trigger] starty@[u] == NENI || povoleny(m, u, starty@[u]),
        ensures
            final(self).dobry(m),
            final(self).start@ == starty@,
    {
        let mut u: usize = 0;
        while u < m.n_u
            invariant
                u <= m.n_u,
                self.dobry(m),
            decreases m.n_u - u,
        {
            self.presun(m, u, NENI);
            u = u + 1;
        }
        let mut u: usize = 0;
        while u < m.n_u
            invariant
                u <= m.n_u,
                self.dobry(m),
                starty@.len() == m.n_u,
                forall|x: int| 0 <= x < m.n_u ==> #[trigger] starty@[x] == NENI || povoleny(m, x, starty@[x]),
                forall|x: int| 0 <= x < u ==> #[trigger] self.start@[x] == starty@[x],
            decreases m.n_u - u,
        {
            self.presun(m, u, starty[u]);
            u = u + 1;
        }
        proof {
            assert(self.start@ =~= starty@);
        }
    }

    /// Je `s` povolený začátek jednotky?
    pub fn povoleno(&self, m: &Model, u: usize, s: u8) -> (r: bool)
        requires
            self.dobry(m),
            u < m.n_u,
        ensures
            r == (s != NENI && povoleny(m, u as int, s)),
    {
        s != NENI && (s as usize) < N_SLOTU && m.allowed[u][s as usize]
    }

    /// Jednotka je neumístěná, v kolizi, v přeplněném bazénu, nebo má tvrdé porušení
    /// v den svého začátku u některého profilu, učitele či klíče.
    pub fn je_spatna(&self, m: &Model, u: usize) -> (r: bool)
        requires
            self.dobry(m),
            u < m.n_u,
        ensures
            self.start@[u as int] == NENI ==> r,
            r == spatna_spec(*self, *m, u as int),
    {
        let s = self.start[u];
        if s == NENI {
            return true;
        }
        let s = s as usize;
        let d = s / SLOTU;
        proof {
            assert(vejde_se(m, u as int, s as u8));
        }
        if self.kolize(m, u, s) > 0 {
            return true;
        }
        let len = m.ulen[u] as usize;
        let mut t = s;
        while t < s + len
            invariant
                s <= t <= s + len,
                s + len <= N_SLOTU,
                u < m.n_u,
                self.dobry(m),
                len == m.ulen@[u as int],
                s == self.start@[u as int],
                forall|t2: int, k2: int, w2: int|
                    s <= t2 < t && 0 <= k2 < m.upools@[u as int]@.len() && 0 <= w2 < 2 ==> !#[trigger] bazen_preplnen(*self, *m, u as int, t2, k2, w2),
            decreases s + len - t,
        {
            let mut k: usize = 0;
            while k < m.upools[u].len()
                invariant
                    k <= m.upools@[u as int]@.len(),
                    t < N_SLOTU,
                    u < m.n_u,
                    self.dobry(m),
                    forall|t2: int, k2: int, w2: int|
                        s <= t2 < t && 0 <= k2 < m.upools@[u as int]@.len() && 0 <= w2 < 2 ==> !#[trigger] bazen_preplnen(*self, *m, u as int, t2, k2, w2),
                    forall|k2: int, w2: int| 0 <= k2 < k && 0 <= w2 < 2 ==> !#[trigger] bazen_preplnen(*self, *m, u as int, t as int, k2, w2),
                    s == self.start@[u as int],
                    s <= t < s + len,
                    len == m.ulen@[u as int],
                decreases m.upools@[u as int]@.len() - k,
            {
                let (p, mask) = m.upools[u][k];
                let p = p as usize;
                let mut w: usize = 0;
                while w < 2
                    invariant
                        w <= 2,
                        p < m.pool_cap@.len(),
                        t < N_SLOTU,
                        self.dobry(m),
                        u < m.n_u,
                        k < m.upools@[u as int]@.len(),
                        (p as int, mask) == (m.upools@[u as int]@[k as int].0 as int, m.upools@[u as int]@[k as int].1),
                        forall|w2: int| 0 <= w2 < w ==> !#[trigger] bazen_preplnen(*self, *m, u as int, t as int, k as int, w2),
                        s == self.start@[u as int],
                        s <= t < s + len,
                        len == m.ulen@[u as int],
                    decreases 2 - w,
                {
                    proof {
                        assert(self.pool_occ@[p as int]@.len() == 2 * N_SLOTU);
                    }
                    if v_tydnu(mask, w) && self.pool_occ[p][w * N_SLOTU + t] > m.pool_cap[p] as u32 {
                        proof {
                            assert(bazen_preplnen(*self, *m, u as int, t as int, k as int, w as int));
                            assert(self.start@[u as int] as int <= t < self.start@[u as int] as int + m.ulen@[u as int]);
                            assert(spatna_spec(*self, *m, u as int));
                        }
                        return true;
                    }
                    w = w + 1;
                }
                k = k + 1;
            }
            t = t + 1;
        }
        let mut k: usize = 0;
        while k < m.uprof[u].len()
            invariant
                k <= m.uprof@[u as int]@.len(),
                u < m.n_u,
                d < DNY,
                d == self.start@[u as int] as int / SLOTU as int,
                self.dobry(m),
                forall|k2: int| 0 <= k2 < k ==> !#[trigger] profil_spatny(*self, *m, u as int, k2, d as int),
            decreases m.uprof@[u as int]@.len() - k,
        {
            let p = m.uprof[u][k] as usize;
            proof {
                assert(m.uprof@[u as int]@[k as int] < m.prof@.len());
                assert(self.prof_day@[p as int]@.len() == DNY);
            }
            if self.prof_day[p][d].hard > 0 || self.prof_week[p] > 0 {
                proof {
                    assert(profil_spatny(*self, *m, u as int, k as int, d as int));
                }
                return true;
            }
            k = k + 1;
        }
        let mut k: usize = 0;
        while k < m.uteach[u].len()
            invariant
                k <= m.uteach@[u as int]@.len(),
                u < m.n_u,
                d < DNY,
                d == self.start@[u as int] as int / SLOTU as int,
                self.dobry(m),
                forall|k2: int| 0 <= k2 < k ==> !#[trigger] ucitel_spatny(*self, *m, u as int, k2, d as int),
            decreases m.uteach@[u as int]@.len() - k,
        {
            let t = m.uteach[u][k] as usize;
            proof {
                assert(m.uteach@[u as int]@[k as int] < m.teach_max@.len());
                assert(self.teach_day@[t as int]@.len() == DNY);
            }
            if self.teach_day[t][d].0 > 0 {
                proof {
                    assert(ucitel_spatny(*self, *m, u as int, k as int, d as int));
                }
                return true;
            }
            k = k + 1;
        }
        let mut k: usize = 0;
        while k < m.ukeys[u].len()
            invariant
                k <= m.ukeys@[u as int]@.len(),
                u < m.n_u,
                d < DNY,
                d == self.start@[u as int] as int / SLOTU as int,
                self.dobry(m),
                forall|k2: int| 0 <= k2 < k ==> !#[trigger] klic_spatny(*self, *m, u as int, k2, d as int),
            decreases m.ukeys@[u as int]@.len() - k,
        {
            let key = m.ukeys[u][k] as usize;
            proof {
                assert(m.ukeys@[u as int]@[k as int] < m.key_len@.len());
                assert(self.key_day@[key as int]@.len() == DNY);
            }
            if self.key_day[key][d].0 > 0 {
                proof {
                    assert(klic_spatny(*self, *m, u as int, k as int, d as int));
                }
                return true;
            }
            k = k + 1;
        }
        false
    }

    /// Špatné pohyblivé jednotky.
    pub fn spatne(&self, m: &Model, pohyblive: &Vec<bool>) -> (r: Vec<usize>)
        requires
            self.dobry(m),
            pohyblive@.len() == m.n_u,
        ensures
            forall|k: int| 0 <= k < r@.len() ==> (#[trigger] r@[k]) < m.n_u && pohyblive@[r@[k] as int],
            r@ == Seq::new(m.n_u as nat, |u: int| u as usize).filter(|u: usize| pohyblive@[u as int] && spatna_spec(*self, *m, u as int)),
    {
        let ghost vse = Seq::new(m.n_u as nat, |u: int| u as usize);
        let ghost pr = |u: usize| pohyblive@[u as int] && spatna_spec(*self, *m, u as int);
        let mut r: Vec<usize> = Vec::new();
        let mut u: usize = 0;
        while u < m.n_u
            invariant
                u <= m.n_u,
                self.dobry(m),
                pohyblive@.len() == m.n_u,
                forall|k: int| 0 <= k < r@.len() ==> (#[trigger] r@[k]) < m.n_u && pohyblive@[r@[k] as int],
                vse == Seq::new(m.n_u as nat, |u: int| u as usize),
                pr == (|u: usize| pohyblive@[u as int] && spatna_spec(*self, *m, u as int)),
                r@ == vse.take(u as int).filter(pr),
            decreases m.n_u - u,
        {
            proof {
                assert(vse.take(u + 1) =~= vse.take(u as int).push(u));
                vse.take(u as int).lemma_filter_push(u, pr);
            }
            if pohyblive[u] && self.je_spatna(m, u) {
                r.push(u);
            }
            u = u + 1;
        }
        proof {
            assert(vse.take(m.n_u as int) =~= vse);
        }
        r
    }
}

/// Počet povolených začátků jednotky.
pub fn pocet_povolenych(m: &Model, u: usize) -> (r: usize)
    requires
        m.dobry(),
        u < m.n_u,
    ensures
        r >= 1,
        r <= N_SLOTU,
        r == crate::validation::obsazenych(m.allowed@[u as int]@, N_SLOTU as int),
{
    let mut r: usize = 0;
    let mut s: usize = 0;
    while s < N_SLOTU
        invariant
            s <= N_SLOTU,
            r <= s,
            m.dobry(),
            u < m.n_u,
            (exists|x: int| 0 <= x < s && #[trigger] m.allowed@[u as int]@[x]) ==> r >= 1,
            r == crate::validation::obsazenych(m.allowed@[u as int]@, s as int),
        decreases N_SLOTU - s,
    {
        if m.allowed[u][s] {
            r = r + 1;
        }
        s = s + 1;
    }
    proof {
        assert(crate::model::nejaky_povoleny(m.allowed@[u as int]@));
    }
    r
}

/// Obsahuje seznam hodnotu?
pub fn obsahuje_u8(v: &Vec<u8>, x: u8) -> (r: bool)
    ensures
        r == v@.contains(x),
{
    let mut i: usize = 0;
    while i < v.len()
        invariant
            i <= v@.len(),
            forall|k: int| 0 <= k < i ==> v@[k] != x,
        decreases v@.len() - i,
    {
        if v[i] == x {
            proof {
                assert(v@[i as int] == x);
            }
            return true;
        }
        i = i + 1;
    }
    false
}

} // verus!
