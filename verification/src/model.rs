//! Model pro řešič: délky a velikosti jednotek, profily žáků (žáci se stejnou sadou
//! jednotek), limity P1 s auto-uvolněním, učitelé, klíče předmětů, bazény odborných
//! místností, povolené začátky (včetně pinů) a konflikty jednotek.

use crate::data::{index_tridy, Omezeni, Skola, Vahy, DNY, N_SLOTU, SLOTU};
use crate::mapa::Mapa;
use crate::solver::{jednotky_platne, kapacita_spec, kapacita_tydne, lekce_platna, vstup_platny, LekceInfo, Tyden, Vstup};
use vstd::prelude::*;

verus! {

/// Hodnota omezená na rozsah `i64`.
pub open spec fn omez(x: int) -> int {
    if x > i64::MAX {
        i64::MAX as int
    } else if x < i64::MIN {
        i64::MIN as int
    } else {
        x
    }
}

/// Součet s nasycením na mezích `i64`.
pub fn s_add(a: i64, b: i64) -> (r: i64)
    ensures
        r == omez(a + b),
{
    let x: i128 = a as i128 + b as i128;
    if x > i64::MAX as i128 {
        i64::MAX
    } else if x < i64::MIN as i128 {
        i64::MIN
    } else {
        x as i64
    }
}

/// Rozdíl s nasycením na mezích `i64`.
pub fn s_sub(a: i64, b: i64) -> (r: i64)
    ensures
        r == omez(a - b),
{
    let x: i128 = a as i128 - b as i128;
    if x > i64::MAX as i128 {
        i64::MAX
    } else if x < i64::MIN as i128 {
        i64::MIN
    } else {
        x as i64
    }
}

/// Součin s nasycením na mezích `i64`.
pub fn s_mul(a: i64, b: i64) -> (r: i64)
    ensures
        r == omez(a * b),
{
    proof {
        assert(-0x8000_0000_0000_0000 <= a <= 0x7fff_ffff_ffff_ffff);
        assert(-0x8000_0000_0000_0000 <= b <= 0x7fff_ffff_ffff_ffff);
        assert(a * b <= 0x4000_0000_0000_0000_0000_0000_0000_0000 && a * b >= -0x4000_0000_0000_0000_0000_0000_0000_0000) by (nonlinear_arith)
            requires
                -0x8000_0000_0000_0000 <= a <= 0x7fff_ffff_ffff_ffff,
                -0x8000_0000_0000_0000 <= b <= 0x7fff_ffff_ffff_ffff,
        ;
    }
    let x: i128 = a as i128 * b as i128;
    if x > i64::MAX as i128 {
        i64::MAX
    } else if x < i64::MIN as i128 {
        i64::MIN
    } else {
        x as i64
    }
}

/// Posloupnost ostře roste.
pub open spec fn rostouci(v: Seq<u32>) -> bool {
    forall|i: int, j: int| 0 <= i < j < v.len() ==> #[trigger] v[i] < #[trigger] v[j]
}

/// Vloží prvek do ostře rostoucí posloupnosti (není-li tam).
pub fn vloz_serazene(v: &mut Vec<u32>, x: u32)
    requires
        rostouci(old(v)@),
    ensures
        rostouci(final(v)@),
        forall|y: u32| #[trigger] final(v)@.contains(y) <==> (old(v)@.contains(y) || y == x),
{
    let mut i: usize = 0;
    while i < v.len() && v[i] < x
        invariant
            i <= v@.len(),
            rostouci(v@),
            v@ == old(v)@,
            forall|k: int| 0 <= k < i ==> #[trigger] v@[k] < x,
        decreases v@.len() - i,
    {
        i = i + 1;
    }
    if i < v.len() && v[i] == x {
        return;
    }
    let ghost v0 = v@;
    v.insert(i, x);
    proof {
        assert(v@ =~= v0.take(i as int).push(x) + v0.skip(i as int));
        assert forall|a: int, b: int| 0 <= a < b < v@.len() implies #[trigger] v@[a] < #[trigger] v@[b] by {
            if b < i {
                assert(v@[a] == v0[a] && v@[b] == v0[b]);
            } else if b == i {
                assert(v@[a] == v0[a]);
            } else if a < i {
                assert(v@[a] == v0[a] && v@[b] == v0[b - 1]);
            } else if a == i {
                assert(v@[b] == v0[b - 1]);
                if i < v0.len() {
                    assert(v0[i as int] >= x);
                    assert(v0[i as int] != x);
                    if b - 1 > i {
                        assert(v0[i as int] < v0[b - 1]);
                    }
                }
            } else {
                assert(v@[a] == v0[a - 1] && v@[b] == v0[b - 1]);
            }
        }
        assert forall|y: u32| #[trigger] v@.contains(y) <==> (v0.contains(y) || y == x) by {
            if v@.contains(y) {
                let k = choose|k: int| 0 <= k < v@.len() && v@[k] == y;
                if k < i {
                    assert(v0[k] == y);
                } else if k > i {
                    assert(v0[k - 1] == y);
                }
            }
            if v0.contains(y) {
                let k = choose|k: int| 0 <= k < v0.len() && v0[k] == y;
                if k < i {
                    assert(v@[k] == y);
                } else {
                    assert(v@[k + 1] == y);
                }
            }
            if y == x {
                assert(v@[i as int] == x);
            }
        }
    }
}

/// Profil žáků: žáci se stejnou sadou jednotek.
#[derive(Clone, Copy, Debug)]
pub struct ProfInfo {
    /// Počet žáků profilu.
    pub size: i64,
    pub rane: Option<u8>,
    pub odpo: Option<u8>,
    /// Váha odpolední hodiny (nižší/vyšší gymnázium).
    pub w_odpo: i64,
}

/// Model řešiče; jednotky jsou indexy `0..n_u`, sloty `0..N_SLOTU` (den*SLOTU+hodina).
#[derive(Clone, Debug)]
pub struct Model {
    pub n_u: usize,
    /// Délka jednotky (nejdelší lekce).
    pub ulen: Vec<u8>,
    /// Povolené začátky jednotky.
    pub allowed: Vec<Vec<bool>>,
    /// Konflikty jednotek (sdílený učitel nebo žák ve stejném týdnu).
    pub conf: Vec<Vec<bool>>,
    /// Profily žáků, kterých se jednotka týká.
    pub uprof: Vec<Vec<u32>>,
    pub uteach: Vec<Vec<u32>>,
    /// Podmnožina `uteach`: učitelé jednotky, pro které je některá třída jednotky preferovaná.
    pub uteach_pref: Vec<Vec<u32>>,
    pub ukeys: Vec<Vec<u32>>,
    /// Bazény místností s maskou týdnů (1 lichý, 2 sudý, 3 oba).
    pub upools: Vec<Vec<(u32, u8)>>,
    /// Statická cena umístění jednotky do slotu (semináře odpoledne).
    pub uplace: Vec<Vec<i64>>,
    /// Počet žáků jednotky (aspoň 1).
    pub usize_: Vec<i64>,
    pub prof_units: Vec<Vec<u32>>,
    /// Třída žáků profilu.
    pub prof_trida: Vec<String>,
    pub prof: Vec<ProfInfo>,
    pub teach_max: Vec<u8>,
    pub key_len: Vec<u8>,
    pub key_size: Vec<i64>,
    pub pool_cap: Vec<u8>,
    pub za_den: bool,
    pub odpo_od: usize,
    pub vahy: Vahy,
    /// Počet vnitřních kolizí jednotek (nelze je odstranit přesunem).
    pub strukturalni: i64,
    /// Efektivní limity P1 po auto-uvolnění.
    pub limity: Mapa<Omezeni>,
}

/// Všechny prvky menší než mez.
pub open spec fn pod_mez(v: Seq<Vec<u32>>, mez: int) -> bool {
    forall|u: int, k: int| 0 <= u < v.len() && 0 <= k < v[u]@.len() ==> (#[trigger] v[u]@[k]) < mez
}

/// Jednotka má aspoň jeden povolený začátek.
pub open spec fn nejaky_povoleny(a: Seq<bool>) -> bool {
    exists|s: int| 0 <= s < a.len() && #[trigger] a[s]
}

impl Model {
    /// Rozměry a meze modelu sedí.
    pub open spec fn dobry(&self) -> bool {
        let n = self.n_u as int;
        &&& self.ulen@.len() == n
        &&& forall|u: int| 0 <= u < n ==> 1 <= #[trigger] self.ulen@[u] <= 2
        &&& self.allowed@.len() == n
        &&& forall|u: int| 0 <= u < n ==> (#[trigger] self.allowed@[u])@.len() == N_SLOTU
        &&& forall|u: int, s: int|
            0 <= u < n && 0 <= s < N_SLOTU && #[trigger] self.allowed@[u]@[s] ==> s % (SLOTU as int) + self.ulen@[u]
                <= SLOTU
        &&& forall|u: int| 0 <= u < n ==> nejaky_povoleny(#[trigger] self.allowed@[u]@)
        &&& self.conf@.len() == n
        &&& forall|u: int| 0 <= u < n ==> (#[trigger] self.conf@[u])@.len() == n
        &&& self.uprof@.len() == n && pod_mez(self.uprof@, self.prof@.len() as int)
        &&& self.uteach@.len() == n && pod_mez(self.uteach@, self.teach_max@.len() as int)
        &&& self.uteach_pref@.len() == n && pod_mez(self.uteach_pref@, self.teach_max@.len() as int)
        &&& self.ukeys@.len() == n && pod_mez(self.ukeys@, self.key_len@.len() as int)
        &&& self.key_size@.len() == self.key_len@.len()
        &&& self.upools@.len() == n
        &&& forall|u: int, k: int|
            0 <= u < n && 0 <= k < self.upools@[u]@.len() ==> (#[trigger] self.upools@[u]@[k]).0
                < self.pool_cap@.len() && 1 <= self.upools@[u]@[k].1 <= 3
        &&& self.uplace@.len() == n
        &&& forall|u: int| 0 <= u < n ==> (#[trigger] self.uplace@[u])@.len() == N_SLOTU
        &&& self.usize_@.len() == n
        &&& self.prof_units@.len() == self.prof@.len() && pod_mez(self.prof_units@, n)
        &&& 1 <= self.odpo_od <= SLOTU
        &&& self.pool_cap@.len() <= u32::MAX
        &&& self.n_u <= u32::MAX
    }
}

/// Délky jednotek (nejdelší lekce) a jejich velikosti (součet žáků lekcí, aspoň 1).
fn delky_jednotek(vs: &Vstup) -> (r: (Vec<u8>, Vec<i64>))
    requires
        jednotky_platne(vs.lekce@, vs.jednotky@),
        forall|i: int| 0 <= i < vs.lekce@.len() ==> 1 <= (#[trigger] vs.lekce@[i]).len <= 2,
    ensures
        r.0@.len() == vs.jednotky@.len(),
        r.1@.len() == vs.jednotky@.len(),
        forall|u: int| 0 <= u < r.0@.len() ==> 1 <= #[trigger] r.0@[u] <= 2,
        forall|u: int, k: int|
            0 <= u < vs.jednotky@.len() && 0 <= k < vs.jednotky@[u]@.len() ==> vs.lekce@[(#[trigger] vs.jednotky@[u]@[k]) as int].len
                <= r.0@[u],
        forall|u: int| 0 <= u < r.1@.len() ==> #[trigger] r.1@[u] >= 1,
{
    let mut ulen: Vec<u8> = Vec::new();
    let mut usz: Vec<i64> = Vec::new();
    let mut u: usize = 0;
    while u < vs.jednotky.len()
        invariant
            u <= vs.jednotky@.len(),
            jednotky_platne(vs.lekce@, vs.jednotky@),
            forall|i: int| 0 <= i < vs.lekce@.len() ==> 1 <= (#[trigger] vs.lekce@[i]).len <= 2,
            ulen@.len() == u,
            usz@.len() == u,
            forall|x: int| 0 <= x < u ==> 1 <= #[trigger] ulen@[x] <= 2,
            forall|x: int, k: int|
                0 <= x < u && 0 <= k < vs.jednotky@[x]@.len() ==> vs.lekce@[(#[trigger] vs.jednotky@[x]@[k]) as int].len
                    <= ulen@[x],
            forall|x: int| 0 <= x < u ==> #[trigger] usz@[x] >= 1,
        decreases vs.jednotky@.len() - u,
    {
        let j = &vs.jednotky[u];
        let mut m: u8 = 1;
        let mut soucet: i64 = 0;
        let mut k: usize = 0;
        while k < j.len()
            invariant
                k <= j@.len(),
                *j == vs.jednotky@[u as int],
                u < vs.jednotky@.len(),
                jednotky_platne(vs.lekce@, vs.jednotky@),
                forall|i: int| 0 <= i < vs.lekce@.len() ==> 1 <= (#[trigger] vs.lekce@[i]).len <= 2,
                1 <= m <= 2,
                soucet >= 0,
                forall|y: int| 0 <= y < k ==> vs.lekce@[(#[trigger] j@[y]) as int].len <= m,
            decreases j@.len() - k,
        {
            let l = &vs.lekce[j[k]];
            if l.len > m {
                m = l.len;
            }
            let pocet = l.zaci.len();
            soucet = if pocet as u64 > (i64::MAX - soucet) as u64 {
                i64::MAX
            } else {
                soucet + pocet as i64
            };
            k = k + 1;
        }
        ulen.push(m);
        usz.push(if soucet < 1 { 1 } else { soucet });
        u = u + 1;
    }
    (ulen, usz)
}

/// Obsahuje vektor prvek?
pub fn obsahuje_u32(v: &Vec<u32>, x: u32) -> (r: bool)
    ensures
        r == v@.contains(x),
{
    let mut i: usize = 0;
    while i < v.len()
        invariant
            i <= v@.len(),
            forall|k: int| 0 <= k < i ==> v@[k] != x,
        decreases v@.len() - i,
    {
        if v[i] == x {
            proof {
                assert(v@[i as int] == x);
            }
            return true;
        }
        i = i + 1;
    }
    false
}

/// Shoda dvou vektorů.
pub fn stejne_u32(a: &Vec<u32>, b: &Vec<u32>) -> (r: bool)
    ensures
        r == (a@ == b@),
{
    if a.len() != b.len() {
        return false;
    }
    let mut i: usize = 0;
    while i < a.len()
        invariant
            i <= a@.len(),
            a@.len() == b@.len(),
            forall|k: int| 0 <= k < i ==> a@[k] == b@[k],
        decreases a@.len() - i,
    {
        if a[i] != b[i] {
            return false;
        }
        i = i + 1;
    }
    proof {
        assert(a@ =~= b@);
    }
    true
}

/// Ostře rostoucí posloupnost čísel `u32` je nejvýš tak dlouhá, kolik je hodnot.
proof fn lemma_rostouci_delka(v: Seq<u32>)
    requires
        rostouci(v),
    ensures
        v.len() <= 0x1_0000_0000,
        forall|i: int| 0 <= i < v.len() ==> #[trigger] v[i] >= i,
    decreases v.len(),
{
    if v.len() > 0 {
        let w = v.drop_last();
        assert(rostouci(w)) by {
            assert forall|i: int, j: int| 0 <= i < j < w.len() implies #[trigger] w[i] < #[trigger] w[j] by {
                assert(w[i] == v[i] && w[j] == v[j]);
            }
        }
        lemma_rostouci_delka(w);
        assert forall|i: int| 0 <= i < v.len() implies #[trigger] v[i] >= i by {
            if i < w.len() {
                assert(w[i] == v[i]);
            } else if i > 0 {
                assert(w[i - 1] == v[i - 1]);
                assert(v[i - 1] < v[i]);
            }
        }
        assert(v[v.len() - 1] >= v.len() - 1);
    }
}

/// Žák `z` je v některé z prvních `n` lekcí.
pub open spec fn zak_v_lekcich(lekce: Seq<LekceInfo>, z: u32, n: int) -> bool {
    exists|i: int| 0 <= i < n && #[trigger] lekce[i].zaci@.contains(z)
}

/// Indexy lekcí žáka `z` (vzestupně).
pub open spec fn lekce_zaka(lekce: Seq<LekceInfo>, z: u32) -> Seq<usize> {
    indexy(lekce.len()).filter(|i: usize| lekce[i as int].zaci@.contains(z))
}

/// Jednotka `j` má lekci mezi prvními `n`, kde je žák `z`.
pub open spec fn jednotka_zaka(lekce: Seq<LekceInfo>, z: u32, j: u32, n: int) -> bool {
    exists|i: int| 0 <= i < n && #[trigger] lekce[i].zaci@.contains(z) && lekce[i].jednotka == j as usize
}

/// Jednotky `units` jsou přesně jednotky lekcí žáka `z`.
pub open spec fn profil_zaka(units: Seq<u32>, lekce: Seq<LekceInfo>, z: u32) -> bool {
    forall|j: u32| #[trigger] units.contains(j) <==> jednotka_zaka(lekce, z, j, lekce.len() as int)
}

/// Žák `z` má mezi profily `prof` profil přesně ze svých jednotek.
pub open spec fn ma_profil(prof: Seq<Vec<u32>>, lekce: Seq<LekceInfo>, z: u32) -> bool {
    exists|p: int| 0 <= p < prof.len() && #[trigger] profil_zaka(prof[p]@, lekce, z)
}

/// Profily žáků. Vrací jednotky každého profilu (ostře rostoucí), třídu profilu, počet
/// jeho žáků, seřazená id žáků s lekcemi a lekce každého z nich.
fn profily(vs: &Vstup) -> (r: (Vec<Vec<u32>>, Vec<String>, Vec<i64>, Vec<u32>, Vec<Vec<usize>>))
    requires
        jednotky_platne(vs.lekce@, vs.jednotky@),
        forall|i: int| 0 <= i < vs.lekce@.len() ==> lekce_platna(#[trigger] vs.lekce@[i], vs.zaci_tridy@),
        vs.jednotky@.len() <= u32::MAX,
    ensures
        r.0@.len() == r.1@.len(),
        r.0@.len() == r.2@.len(),
        pod_mez(r.0@, vs.jednotky@.len() as int),
        forall|p: int| 0 <= p < r.0@.len() ==> rostouci(#[trigger] r.0@[p]@),
        forall|p: int| 0 <= p < r.2@.len() ==> #[trigger] r.2@[p] >= 1,
        r.0@.len() <= r.3@.len(),
        rostouci(r.3@),
        r.4@.len() == r.3@.len(),
        forall|z: int, k: int| 0 <= z < r.4@.len() && 0 <= k < r.4@[z]@.len() ==> (#[trigger] r.4@[z]@[k]) < vs.lekce@.len(),
        forall|z: int, k: int|
            0 <= z < r.4@.len() && 0 <= k < r.4@[z]@.len() ==> vs.lekce@[(#[trigger] r.4@[z]@[k]) as int].zaci@.contains(
                r.3@[z],
            ),
        forall|z: u32| #[trigger] r.3@.contains(z) <==> zak_v_lekcich(vs.lekce@, z, vs.lekce@.len() as int),
        forall|z: int| 0 <= z < r.4@.len() ==> (#[trigger] r.4@[z])@ == lekce_zaka(vs.lekce@, r.3@[z]),
        forall|z: int| 0 <= z < r.3@.len() ==> #[trigger] ma_profil(r.0@, vs.lekce@, r.3@[z]),
{
    let ghost zt = vs.zaci_tridy@;
    let mut ids: Vec<u32> = Vec::new();
    let mut i: usize = 0;
    while i < vs.lekce.len()
        invariant
            i <= vs.lekce@.len(),
            zt == vs.zaci_tridy@,
            forall|x: int| 0 <= x < vs.lekce@.len() ==> lekce_platna(#[trigger] vs.lekce@[x], zt),
            rostouci(ids@),
            forall|k: int| 0 <= k < ids@.len() ==> zt.contains_key(#[trigger] ids@[k]),
            forall|z: u32| #[trigger] ids@.contains(z) <==> zak_v_lekcich(vs.lekce@, z, i as int),
        decreases vs.lekce@.len() - i,
    {
        let l = &vs.lekce[i];
        proof {
            assert(lekce_platna(*l, zt));
        }
        let mut k: usize = 0;
        while k < l.zaci.len()
            invariant
                k <= l.zaci@.len(),
                lekce_platna(*l, zt),
                rostouci(ids@),
                forall|x: int| 0 <= x < ids@.len() ==> zt.contains_key(#[trigger] ids@[x]),
                *l == vs.lekce@[i as int],
                i < vs.lekce@.len(),
                forall|z: u32| #[trigger] ids@.contains(z) <==> (zak_v_lekcich(vs.lekce@, z, i as int) || l.zaci@.take(k as int).contains(z)),
            decreases l.zaci@.len() - k,
        {
            let ghost i0 = ids@;
            proof {
                assert(l.zaci@.take(k + 1) =~= l.zaci@.take(k as int).push(l.zaci@[k as int]));
            }
            vloz_serazene(&mut ids, l.zaci[k]);
            proof {
                assert forall|z: u32| #[trigger] ids@.contains(z) <==> (zak_v_lekcich(vs.lekce@, z, i as int) || l.zaci@.take(k + 1).contains(z)) by {
                    crate::hledani::lemma_contains_push(l.zaci@.take(k as int), l.zaci@[k as int], z);
                }
            }
            proof {
                assert forall|x: int| 0 <= x < ids@.len() implies zt.contains_key(#[trigger] ids@[x]) by {
                    assert(ids@.contains(ids@[x]));
                    if ids@[x] != l.zaci@[k as int] {
                        assert(i0.contains(ids@[x]));
                        let y = choose|y: int| 0 <= y < i0.len() && i0[y] == ids@[x];
                        assert(zt.contains_key(i0[y]));
                    }
                }
            }
            k = k + 1;
        }
        proof {
            assert(l.zaci@.take(l.zaci@.len() as int) =~= l.zaci@);
            assert forall|z: u32| #[trigger] ids@.contains(z) <==> zak_v_lekcich(vs.lekce@, z, i + 1) by {
                if zak_v_lekcich(vs.lekce@, z, i + 1) && !zak_v_lekcich(vs.lekce@, z, i as int) {
                    let q = choose|q: int| 0 <= q < i + 1 && #[trigger] vs.lekce@[q].zaci@.contains(z);
                    assert(q == i);
                }
                if zak_v_lekcich(vs.lekce@, z, i as int) {
                    let q = choose|q: int| 0 <= q < i && #[trigger] vs.lekce@[q].zaci@.contains(z);
                    assert(zak_v_lekcich(vs.lekce@, z, i + 1));
                }
                if l.zaci@.contains(z) {
                    assert(vs.lekce@[i as int].zaci@.contains(z));
                }
            }
        }
        i = i + 1;
    }
    proof {
        lemma_rostouci_delka(ids@);
    }
    let mut prof_units: Vec<Vec<u32>> = Vec::new();
    let mut prof_trida: Vec<String> = Vec::new();
    let mut prof_size: Vec<i64> = Vec::new();
    let mut zak_lekce: Vec<Vec<usize>> = Vec::new();
    let mut zi: usize = 0;
    while zi < ids.len()
        invariant
            zi <= ids@.len(),
            ids@.len() <= 0x1_0000_0000,
            rostouci(ids@),
            zt == vs.zaci_tridy@,
            vs.jednotky@.len() <= u32::MAX,
            jednotky_platne(vs.lekce@, vs.jednotky@),
            forall|k: int| 0 <= k < ids@.len() ==> zt.contains_key(#[trigger] ids@[k]),
            prof_units@.len() == prof_trida@.len(),
            prof_units@.len() == prof_size@.len(),
            prof_units@.len() <= zi,
            pod_mez(prof_units@, vs.jednotky@.len() as int),
            forall|p: int| 0 <= p < prof_units@.len() ==> rostouci(#[trigger] prof_units@[p]@),
            forall|p: int| 0 <= p < prof_size@.len() ==> 1 <= #[trigger] prof_size@[p] <= zi,
            zak_lekce@.len() == zi,
            forall|z: int, k: int| 0 <= z < zak_lekce@.len() && 0 <= k < zak_lekce@[z]@.len() ==> (#[trigger] zak_lekce@[z]@[k]) < vs.lekce@.len(),
            forall|z: int, k: int|
                0 <= z < zak_lekce@.len() && 0 <= k < zak_lekce@[z]@.len() ==> vs.lekce@[(#[trigger] zak_lekce@[z]@[k]) as int].zaci@.contains(
                    ids@[z],
                ),
            forall|z: u32| #[trigger] ids@.contains(z) <==> zak_v_lekcich(vs.lekce@, z, vs.lekce@.len() as int),
            forall|z: int| 0 <= z < zak_lekce@.len() ==> (#[trigger] zak_lekce@[z])@ == lekce_zaka(vs.lekce@, ids@[z]),
            forall|z: int| 0 <= z < zi ==> #[trigger] ma_profil(prof_units@, vs.lekce@, ids@[z]),
        decreases ids@.len() - zi,
    {
        let z = ids[zi];
        let ghost vse = Seq::new(vs.lekce@.len(), |i: int| i as usize);
        let ghost pz = |i: usize| vs.lekce@[i as int].zaci@.contains(z);
        let mut ls: Vec<usize> = Vec::new();
        let mut us: Vec<u32> = Vec::new();
        let mut i: usize = 0;
        while i < vs.lekce.len()
            invariant
                i <= vs.lekce@.len(),
                vs.jednotky@.len() <= u32::MAX,
                jednotky_platne(vs.lekce@, vs.jednotky@),
                rostouci(us@),
                forall|k: int| 0 <= k < us@.len() ==> (#[trigger] us@[k]) < vs.jednotky@.len(),
                forall|k: int| 0 <= k < ls@.len() ==> (#[trigger] ls@[k]) < vs.lekce@.len() && vs.lekce@[ls@[k] as int].zaci@.contains(z),
                vse == Seq::new(vs.lekce@.len(), |i: int| i as usize),
                pz == (|i: usize| vs.lekce@[i as int].zaci@.contains(z)),
                ls@ == vse.take(i as int).filter(pz),
                forall|j: u32| #[trigger] us@.contains(j) <==> jednotka_zaka(vs.lekce@, z, j, i as int),
            decreases vs.lekce@.len() - i,
        {
            proof {
                assert(vse.take(i + 1) =~= vse.take(i as int).push(i));
                vse.take(i as int).lemma_filter_push(i, pz);
            }
            let ghost us_i = us@;
            if obsahuje_u32(&vs.lekce[i].zaci, z) {
                ls.push(i);
                let ghost u0 = us@;
                let j = vs.lekce[i].jednotka;
                proof {
                    assert(j < vs.jednotky@.len());
                }
                vloz_serazene(&mut us, j as u32);
                proof {
                    assert forall|k: int| 0 <= k < us@.len() implies (#[trigger] us@[k]) < vs.jednotky@.len() by {
                        assert(us@.contains(us@[k]));
                        if us@[k] != j as u32 {
                            let y = choose|y: int| 0 <= y < u0.len() && u0[y] == us@[k];
                            assert(u0[y] < vs.jednotky@.len());
                        }
                    }
                }
            }
            proof {
                assert forall|j: u32| #[trigger] us@.contains(j) <==> jednotka_zaka(vs.lekce@, z, j, i + 1) by {
                    if jednotka_zaka(vs.lekce@, z, j, i + 1) && !jednotka_zaka(vs.lekce@, z, j, i as int) {
                        let q = choose|q: int| 0 <= q < i + 1 && #[trigger] vs.lekce@[q].zaci@.contains(z) && vs.lekce@[q].jednotka == j as usize;
                        assert(q == i);
                        assert(j == vs.lekce@[i as int].jednotka as u32);
                    }
                    if jednotka_zaka(vs.lekce@, z, j, i as int) {
                        let q = choose|q: int| 0 <= q < i && #[trigger] vs.lekce@[q].zaci@.contains(z) && vs.lekce@[q].jednotka == j as usize;
                        assert(jednotka_zaka(vs.lekce@, z, j, i + 1));
                    }
                    if vs.lekce@[i as int].zaci@.contains(z) && j == vs.lekce@[i as int].jednotka as u32 {
                        assert(vs.lekce@[i as int].jednotka < vs.jednotky@.len());
                        assert(jednotka_zaka(vs.lekce@, z, j, i + 1));
                    }
                }
            }
            i = i + 1;
        }
        proof {
            assert(vse.take(vs.lekce@.len() as int) =~= vse);
        }
        let ghost usv = us@;
        proof {
            assert(profil_zaka(usv, vs.lekce@, z));
        }
        let mut p: usize = 0;
        let mut nalezeno = false;
        while p < prof_units.len() && !nalezeno
            invariant
                p <= prof_units@.len(),
                nalezeno ==> p < prof_units@.len() && prof_units@[p as int]@ == us@,
            decreases prof_units@.len() - p + (if nalezeno { 0int } else { 1int }),
        {
            if stejne_u32(&prof_units[p], &us) {
                nalezeno = true;
            } else {
                p = p + 1;
            }
        }
        let ghost pu_pred = prof_units@;
        if nalezeno {
            let n = prof_size[p];
            prof_size.set(p, n + 1);
        } else {
            let tr = match crate::podle_id::trida_zaka(&vs.zaci_tridy, z) {
                Some(t) => t.clone(),
                None => String::new(),
            };
            let ghost pu0 = prof_units@;
            prof_units.push(us);
            prof_trida.push(tr);
            prof_size.push(1);
            proof {
                assert forall|a: int, k: int| 0 <= a < prof_units@.len() && 0 <= k < prof_units@[a]@.len() implies (#[trigger] prof_units@[a]@[k])
                    < vs.jednotky@.len() by {
                    if a < pu0.len() {
                        assert(prof_units@[a] == pu0[a]);
                    }
                }
            }
        }
        let ghost zl0 = zak_lekce@;
        zak_lekce.push(ls);
        proof {
            assert forall|x: int| 0 <= x < zak_lekce@.len() implies (#[trigger] zak_lekce@[x])@ == lekce_zaka(vs.lekce@, ids@[x]) by {
                if x < zl0.len() {
                    assert(zak_lekce@[x] == zl0[x]);
                }
            }
            assert forall|x: int| 0 <= x < zi + 1 implies #[trigger] ma_profil(prof_units@, vs.lekce@, ids@[x]) by {
                if x < zi {
                    assert(ma_profil(pu_pred, vs.lekce@, ids@[x]));
                    let q = choose|q: int| 0 <= q < pu_pred.len() && #[trigger] profil_zaka(pu_pred[q]@, vs.lekce@, ids@[x]);
                    assert(prof_units@[q] == pu_pred[q]);
                    assert(profil_zaka(prof_units@[q]@, vs.lekce@, ids@[x]));
                } else if nalezeno {
                    assert(prof_units@[p as int]@ == usv);
                    assert(profil_zaka(prof_units@[p as int]@, vs.lekce@, ids@[x]));
                } else {
                    assert(prof_units@[pu_pred.len() as int]@ == usv);
                    assert(profil_zaka(prof_units@[pu_pred.len() as int]@, vs.lekce@, ids@[x]));
                }
            }
            assert forall|x: int, k: int| 0 <= x < zak_lekce@.len() && 0 <= k < zak_lekce@[x]@.len() implies (#[trigger] zak_lekce@[x]@[k])
                < vs.lekce@.len() && vs.lekce@[zak_lekce@[x]@[k] as int].zaci@.contains(ids@[x]) by {
                if x < zl0.len() {
                    assert(zak_lekce@[x] == zl0[x]);
                }
            }
        }
        zi = zi + 1;
    }
    (prof_units, prof_trida, prof_size, ids, zak_lekce)
}

/// Nejvyšší limit odpoledních hodin (za den nebo za týden).
pub open spec fn max_odpo(za_den: bool, odpo_od: int) -> int {
    if za_den {
        SLOTU - odpo_od
    } else {
        DNY * (SLOTU - odpo_od)
    }
}

/// Nejvyšší limit raných hodin (za den nebo za týden).
pub open spec fn max_rane(za_den: bool) -> int {
    if za_den {
        1
    } else {
        DNY as int
    }
}

/// Limit lze ještě uvolnit: zvednout odpolední, nebo (nejde-li) rané hodiny.
pub open spec fn lze_uvolnit(lim: Omezeni, za_den: bool, odpo_od: int) -> bool {
    ||| (match lim.odpoledni {
        Some(a) => a < max_odpo(za_den, odpo_od),
        None => false,
    })
    ||| (match lim.rane {
        Some(e) => e < max_rane(za_den),
        None => false,
    })
}

/// Jeden krok uvolnění: zvedne odpolední limit o 1 (je-li pod maximem), jinak ranní limit.
pub open spec fn krok_uvolneni(lim: Omezeni, za_den: bool, odpo_od: int) -> Omezeni {
    match lim.odpoledni {
        Some(a) if a < max_odpo(za_den, odpo_od) => Omezeni { odpoledni: Some((a + 1) as u8), ..lim },
        _ => match lim.rane {
            Some(e) if e < max_rane(za_den) => Omezeni { rane: Some((e + 1) as u8), ..lim },
            _ => lim,
        },
    }
}

/// Míra zbývajícího uvolnění.
pub open spec fn mira_uvolneni(lim: Omezeni, za_den: bool, odpo_od: int) -> int {
    (match lim.odpoledni {
        Some(a) => if a < max_odpo(za_den, odpo_od) { max_odpo(za_den, odpo_od) - a } else { 0 },
        None => 0,
    }) + (match lim.rane {
        Some(e) => if e < max_rane(za_den) { max_rane(za_den) - e } else { 0 },
        None => 0,
    })
}

/// Výsledek auto-uvolnění: kroky `krok_uvolneni`, dokud kapacita nestačí na potřebu
/// a limit jde uvolnit (pro začátek odpoledne v rozsahu dne).
pub open spec fn uvolneno(lim: Omezeni, potreba: int, za_den: bool, odpo_od: int) -> Omezeni
    decreases mira_uvolneni(lim, za_den, odpo_od),
    when 1 <= odpo_od <= SLOTU
{
    if kapacita_spec(lim, za_den, odpo_od) >= potreba || !lze_uvolnit(lim, za_den, odpo_od) {
        lim
    } else {
        uvolneno(krok_uvolneni(lim, za_den, odpo_od), potreba, za_den, odpo_od)
    }
}

/// Auto-uvolnění: zvedá po jedné odpolední limit (dokud to jde), pak ranní limit,
/// dokud kapacita nestačí na potřebu.
pub fn uvolni(lim: Omezeni, potreba: u64, za_den: bool, odpo_od: usize) -> (r: Omezeni)
    requires
        1 <= odpo_od <= SLOTU,
    ensures
        kapacita_spec(r, za_den, odpo_od as int) >= potreba || !lze_uvolnit(r, za_den, odpo_od as int),
        r.odpoledni.is_some() == lim.odpoledni.is_some(),
        r.rane.is_some() == lim.rane.is_some(),
        match (lim.odpoledni, r.odpoledni) {
            (Some(a), Some(b)) => a <= b,
            _ => true,
        },
        match (lim.rane, r.rane) {
            (Some(a), Some(b)) => a <= b,
            _ => true,
        },
        r == uvolneno(lim, potreba as int, za_den, odpo_od as int),
{
    let max_a: usize = if za_den { SLOTU - odpo_od } else { DNY * (SLOTU - odpo_od) };
    let max_e: usize = if za_den { 1 } else { DNY };
    let mut l = lim;
    let mut hotovo = false;
    while !hotovo && (kapacita_tydne(l, za_den, odpo_od) as u64) < potreba
        invariant
            1 <= odpo_od <= SLOTU,
            max_a == max_odpo(za_den, odpo_od as int),
            max_e == max_rane(za_den),
            hotovo ==> !lze_uvolnit(l, za_den, odpo_od as int),
            uvolneno(l, potreba as int, za_den, odpo_od as int) == uvolneno(lim, potreba as int, za_den, odpo_od as int),
            l.odpoledni.is_some() == lim.odpoledni.is_some(),
            l.rane.is_some() == lim.rane.is_some(),
            match (lim.odpoledni, l.odpoledni) {
                (Some(a), Some(b)) => a <= b,
                _ => true,
            },
            match (lim.rane, l.rane) {
                (Some(a), Some(b)) => a <= b,
                _ => true,
            },
        decreases (match l.odpoledni {
            Some(a) => if a < max_a { max_a - a } else { 0 },
            None => 0,
        }) + (match l.rane {
            Some(e) => if e < max_e { max_e - e } else { 0 },
            None => 0,
        }) + (if hotovo { 0int } else { 1int }),
    {
        let ghost l0 = l;
        let mut zmeneno = false;
        match l.odpoledni {
            Some(a) => {
                if (a as usize) < max_a {
                    l.odpoledni = Some(a + 1);
                    zmeneno = true;
                }
            },
            None => {},
        }
        if !zmeneno {
            match l.rane {
                Some(e) => {
                    if (e as usize) < max_e {
                        l.rane = Some(e + 1);
                        zmeneno = true;
                    }
                },
                None => {},
            }
        }
        if !zmeneno {
            hotovo = true;
        }
        proof {
            if zmeneno {
                assert(l == krok_uvolneni(l0, za_den, odpo_od as int));
                assert(lze_uvolnit(l0, za_den, odpo_od as int));
                assert(mira_uvolneni(l, za_den, odpo_od as int) < mira_uvolneni(l0, za_den, odpo_od as int));
                assert(kapacita_spec(l0, za_den, odpo_od as int) < potreba);
            } else {
                assert(l == l0);
            }
        }
    }
    l
}

/// Součet délek prvních `k` jednotek seznamu.
pub open spec fn soucet_delek_jednotek(us: Seq<u32>, ulen: Seq<u8>, k: int) -> int
    decreases k,
{
    if k <= 0 {
        0
    } else {
        soucet_delek_jednotek(us, ulen, k - 1) + ulen[us[k - 1] as int]
    }
}

/// Potřeba hodin profilu: součet délek jeho jednotek.
fn potreba_profilu(us: &Vec<u32>, ulen: &Vec<u8>) -> (r: u64)
    requires
        forall|k: int| 0 <= k < us@.len() ==> (#[trigger] us@[k]) < ulen@.len(),
    ensures
        r == if soucet_delek_jednotek(us@, ulen@, us@.len() as int) > u64::MAX {
            u64::MAX as int
        } else {
            soucet_delek_jednotek(us@, ulen@, us@.len() as int)
        },
{
    let mut r: u64 = 0;
    let mut k: usize = 0;
    while k < us.len()
        invariant
            k <= us@.len(),
            forall|x: int| 0 <= x < us@.len() ==> (#[trigger] us@[x]) < ulen@.len(),
            r == if soucet_delek_jednotek(us@, ulen@, k as int) > u64::MAX {
                u64::MAX as int
            } else {
                soucet_delek_jednotek(us@, ulen@, k as int)
            },
            soucet_delek_jednotek(us@, ulen@, k as int) >= 0,
        decreases us@.len() - k,
    {
        r = r.saturating_add(ulen[us[k] as usize] as u64);
        k = k + 1;
    }
    r
}

/// Efektivní limity P1 tříd: výchozí limit, a když profil třídy potřebuje víc hodin,
/// než limit dovolí, auto-uvolnění (je-li zapnuto); obojí se hlásí ve varováních.
/// Začátek odpoledne omezený na hodiny dne (1 až `SLOTU`).
pub open spec fn odpoledne_od_spec(o: u8) -> int {
    if o < 1 {
        1
    } else if o > SLOTU {
        SLOTU as int
    } else {
        o as int
    }
}

/// Potřeba hodin třídy `id`: nejvyšší (nasycená) potřeba mezi prvními `p` profily této třídy.
pub open spec fn potreba_tridy(pu: Seq<Vec<u32>>, pt: Seq<String>, ulen: Seq<u8>, id: Seq<char>, p: int) -> int
    decreases p,
{
    if p <= 0 {
        0
    } else {
        let r = potreba_tridy(pu, pt, ulen, id, p - 1);
        let x0 = soucet_delek_jednotek(pu[p - 1]@, ulen, pu[p - 1]@.len() as int);
        let x = if x0 > u64::MAX { u64::MAX as int } else { x0 };
        if pt[p - 1]@ == id && x > r {
            x
        } else {
            r
        }
    }
}

/// Limit třídy při potřebě `potreba`: její vlastní limit, a nestačí-li jeho kapacita a je
/// zapnuté auto-uvolnění, uvolněný (viz `uvolneno`).
pub open spec fn limit_tridy(tr: crate::data::Trida, potreba: int, za_den: bool, odpo_od: int, auto: bool) -> Omezeni {
    let l0 = tr.spec_omezeni();
    if potreba > kapacita_spec(l0, za_den, odpo_od) && auto {
        uvolneno(l0, potreba, za_den, odpo_od)
    } else {
        l0
    }
}

/// Třída `t` je poslední třídou se svým id mezi prvními `n`.
pub open spec fn posledni_s_id(tridy: Seq<crate::data::Trida>, t: int, n: int) -> bool {
    forall|t2: int| t < t2 < n ==> (#[trigger] tridy[t2]).id@ != tridy[t].id@
}

/// Popis limitu („raných X / odpoledních Y“).
pub open spec fn popis_omezeni(o: Omezeni) -> Seq<char> {
    "raných "@ + crate::data::limit_text(o.rane) + " / odpoledních "@ + crate::data::limit_text(o.odpoledni)
}

/// Varování o automatickém uvolnění limitu třídy `tr` (potřeba `potreba` hodin).
pub open spec fn text_uvolneni(tr: crate::data::Trida, potreba: int, za_den: bool, odpo_od: int) -> Seq<char> {
    let l0 = tr.spec_omezeni();
    "AUTO-UVOLNĚNO "@ + tr.nazev@ + ": kapacita "@ + crate::text::desitkove(kapacita_spec(l0, za_den, odpo_od) as nat) + " < potřeba "@
        + crate::text::desitkove(potreba as nat) + " h ➡ "@ + popis_omezeni(l0) + " ➡ "@ + popis_omezeni(
        uvolneno(l0, potreba, za_den, odpo_od),
    ) + " ("@ + (if za_den {
        "/den"@
    } else {
        "/týden"@
    }) + ")."@
}

/// Třída `t` potřebuje víc hodin, než dovolí její limit, a auto-uvolnění je zapnuté.
pub open spec fn uvolnuje_se(skola: Skola, pu: Seq<Vec<u32>>, pt: Seq<String>, ulen: Seq<u8>, za_den: bool, odpo_od: int, t: int) -> bool {
    let tr = skola.tridy@[t];
    &&& skola.nastaveni.auto_uvolneni
    &&& potreba_tridy(pu, pt, ulen, tr.id@, pu.len() as int) > kapacita_spec(tr.spec_omezeni(), za_den, odpo_od)
}

fn limity_trid(
    skola: &Skola,
    prof_units: &Vec<Vec<u32>>,
    prof_trida: &Vec<String>,
    ulen: &Vec<u8>,
    za_den: bool,
    odpo_od: usize,
    varovani: &mut Vec<String>,
) -> (lim: Mapa<Omezeni>)
    requires
        crate::data::tridy_platne(skola.tridy@),
        pod_mez(prof_units@, ulen@.len() as int),
        prof_units@.len() == prof_trida@.len(),
        1 <= odpo_od <= SLOTU,
    ensures
        lim.dobre(),
        forall|t: int| 0 <= t < skola.tridy@.len() ==> lim.ma(#[trigger] skola.tridy@[t].id@),
        forall|t: int|
            0 <= t < skola.tridy@.len() && posledni_s_id(skola.tridy@, t, skola.tridy@.len() as int) ==> lim.hodnota(
                #[trigger] skola.tridy@[t].id@,
            ) == limit_tridy(
                skola.tridy@[t],
                potreba_tridy(prof_units@, prof_trida@, ulen@, skola.tridy@[t].id@, prof_units@.len() as int),
                za_den,
                odpo_od as int,
                skola.nastaveni.auto_uvolneni,
            ),
        forall|t: int|
            0 <= t < skola.tridy@.len() && uvolnuje_se(*skola, prof_units@, prof_trida@, ulen@, za_den, odpo_od as int, t)
                ==> crate::validation::hlasi(
                final(varovani)@,
                text_uvolneni(
                    #[trigger] skola.tridy@[t],
                    potreba_tridy(prof_units@, prof_trida@, ulen@, skola.tridy@[t].id@, prof_units@.len() as int),
                    za_den,
                    odpo_od as int,
                ),
            ),
        crate::solver::zacina_na(old(varovani)@, final(varovani)@),
{
    let mut limity: Mapa<Omezeni> = Mapa::new();
    let mut t: usize = 0;
    while t < skola.tridy.len()
        invariant
            t <= skola.tridy@.len(),
            crate::data::tridy_platne(skola.tridy@),
            pod_mez(prof_units@, ulen@.len() as int),
            prof_units@.len() == prof_trida@.len(),
            1 <= odpo_od <= SLOTU,
            limity.dobre(),
            forall|x: int| 0 <= x < t ==> limity.ma(#[trigger] skola.tridy@[x].id@),
            forall|x: int|
                0 <= x < t && posledni_s_id(skola.tridy@, x, t as int) ==> limity.hodnota(#[trigger] skola.tridy@[x].id@) == limit_tridy(
                    skola.tridy@[x],
                    potreba_tridy(prof_units@, prof_trida@, ulen@, skola.tridy@[x].id@, prof_units@.len() as int),
                    za_den,
                    odpo_od as int,
                    skola.nastaveni.auto_uvolneni,
                ),
            forall|x: int|
                0 <= x < t && uvolnuje_se(*skola, prof_units@, prof_trida@, ulen@, za_den, odpo_od as int, x) ==> crate::validation::hlasi(
                    varovani@,
                    text_uvolneni(
                        #[trigger] skola.tridy@[x],
                        potreba_tridy(prof_units@, prof_trida@, ulen@, skola.tridy@[x].id@, prof_units@.len() as int),
                        za_den,
                        odpo_od as int,
                    ),
                ),
            crate::solver::zacina_na(old(varovani)@, varovani@),
        decreases skola.tridy@.len() - t,
    {
        let tr = &skola.tridy[t];
        let ghost w0 = varovani@;
        proof {
            assert(tr.platna());
        }
        let mut lim = tr.omezeni();
        let mut potreba: u64 = 0;
        let mut p: usize = 0;
        while p < prof_units.len()
            invariant
                p <= prof_units@.len(),
                pod_mez(prof_units@, ulen@.len() as int),
                prof_units@.len() == prof_trida@.len(),
                potreba == potreba_tridy(prof_units@, prof_trida@, ulen@, tr.id@, p as int),
            decreases prof_units@.len() - p,
        {
            if crate::text::rovno(prof_trida[p].as_str(), tr.id.as_str()) {
                let x = potreba_profilu(&prof_units[p], ulen);
                if x > potreba {
                    potreba = x;
                }
            }
            p = p + 1;
        }
        let cap0 = kapacita_tydne(lim, za_den, odpo_od);
        if potreba > cap0 as u64 {
            let c0 = crate::text::cislo(cap0 as u64);
            let cp = crate::text::cislo(potreba);
            if skola.nastaveni.auto_uvolneni {
                let puvodni = lim;
                lim = uvolni(lim, potreba, za_den, odpo_od);
                let jed = if za_den { "/den" } else { "/týden" };
                let p0 = puvodni.popis();
                let p1 = lim.popis();
                let casti = ["AUTO-UVOLNĚNO ", tr.nazev.as_str(), ": kapacita ", c0.as_str(), " < potřeba ", cp.as_str(), " h ➡ ", p0.as_str(), " ➡ ", p1.as_str(), " (", jed, ")."];
                let text = crate::text::spoj(&casti);
                proof {
                    let c = casti@.map_values(|x: &str| x@);
                    assert(c =~= seq![
                        "AUTO-UVOLNĚNO "@, tr.nazev@, ": kapacita "@, c0@, " < potřeba "@, cp@, " h ➡ "@, p0@, " ➡ "@, p1@, " ("@, jed@, ")."@
                    ]);
                    reveal_with_fuel(crate::text::spojeni, 14);
                    assert(lim == uvolneno(puvodni, potreba as int, za_den, odpo_od as int));
                    assert(text@ =~= text_uvolneni(skola.tridy@[t as int], potreba as int, za_den, odpo_od as int));
                }
                varovani.push(text);
            } else {
                varovani.push(crate::text::spoj(&["NEŘEŠITELNÉ ", tr.nazev.as_str(), ": kapacita ", c0.as_str(), " < potřeba ", cp.as_str(), " h (auto-uvolnění vypnuto)."]));
            }
        }
        proof {
            assert(lim == limit_tridy(
                skola.tridy@[t as int],
                potreba_tridy(prof_units@, prof_trida@, ulen@, tr.id@, prof_units@.len() as int),
                za_den,
                odpo_od as int,
                skola.nastaveni.auto_uvolneni,
            ));
        }
        let ghost lm0 = limity;
        limity.insert(tr.id.clone(), lim);
        proof {
            assert forall|x: int|
                0 <= x < t + 1 && posledni_s_id(skola.tridy@, x, t + 1) implies limity.hodnota(#[trigger] skola.tridy@[x].id@) == limit_tridy(
                    skola.tridy@[x],
                    potreba_tridy(prof_units@, prof_trida@, ulen@, skola.tridy@[x].id@, prof_units@.len() as int),
                    za_den,
                    odpo_od as int,
                    skola.nastaveni.auto_uvolneni,
                ) by {
                if x < t {
                    assert(skola.tridy@[t as int].id@ != skola.tridy@[x].id@);
                    assert(posledni_s_id(skola.tridy@, x, t as int));
                }
            }
        }
        proof {
            assert forall|x: int|
                0 <= x < t + 1 && uvolnuje_se(*skola, prof_units@, prof_trida@, ulen@, za_den, odpo_od as int, x) implies crate::validation::hlasi(
                    varovani@,
                    text_uvolneni(
                        #[trigger] skola.tridy@[x],
                        potreba_tridy(prof_units@, prof_trida@, ulen@, skola.tridy@[x].id@, prof_units@.len() as int),
                        za_den,
                        odpo_od as int,
                    ),
                ) by {
                let tt = text_uvolneni(
                    skola.tridy@[x],
                    potreba_tridy(prof_units@, prof_trida@, ulen@, skola.tridy@[x].id@, prof_units@.len() as int),
                    za_den,
                    odpo_od as int,
                );
                if x < t {
                    let jj = choose|jj: int| 0 <= jj < w0.len() && (#[trigger] w0[jj])@ == tt;
                    assert(varovani@[jj] == w0[jj]);
                } else {
                    assert(varovani@[w0.len() as int]@ == tt);
                }
            }
        }
        t = t + 1;
    }
    limity
}

/// Přidá prvek do seznamu jednotky (nemá-li ho tam už, je-li `jednou`).
fn pridej_do(v: &mut Vec<Vec<u32>>, u: usize, x: u32, jednou: bool, Ghost(mez): Ghost<int>)
    requires
        u < old(v)@.len(),
        x < mez,
        pod_mez(old(v)@, mez),
    ensures
        final(v)@.len() == old(v)@.len(),
        pod_mez(final(v)@, mez),
        forall|w: int| 0 <= w < old(v)@.len() && w != u ==> #[trigger] final(v)@[w] == old(v)@[w],
        final(v)@[u as int]@.contains(x),
        forall|y: u32| #[trigger] old(v)@[u as int]@.contains(y) ==> final(v)@[u as int]@.contains(y),
{
    if jednou && obsahuje_u32(&v[u], x) {
        return;
    }
    let ghost v0 = v@;
    v[u].push(x);
    proof {
        assert(v@[u as int]@ == v0[u as int]@.push(x));
        assert(v@[u as int]@[v0[u as int]@.len() as int] == x);
        assert forall|w: int, k: int| 0 <= w < v@.len() && 0 <= k < v@[w]@.len() implies (#[trigger] v@[w]@[k]) < mez by {
            if w != u {
                assert(v@[w] == v0[w]);
            } else if k < v0[u as int]@.len() {
                assert(v@[w]@[k] == v0[w]@[k]);
            }
        }
        assert forall|y: u32| #[trigger] v0[u as int]@.contains(y) implies v@[u as int]@.contains(y) by {
            let k = choose|k: int| 0 <= k < v0[u as int]@.len() && v0[u as int]@[k] == y;
            assert(v@[u as int]@[k] == y);
        }
    }
}

/// Prázdné seznamy pro `n` jednotek.
fn prazdne(n: usize) -> (r: Vec<Vec<u32>>)
    ensures
        r@.len() == n,
        forall|u: int| 0 <= u < n ==> (#[trigger] r@[u])@.len() == 0,
{
    let mut r: Vec<Vec<u32>> = Vec::new();
    let mut i: usize = 0;
    while i < n
        invariant
            i <= n,
            r@.len() == i,
            forall|u: int| 0 <= u < i ==> (#[trigger] r@[u])@.len() == 0,
        decreases n - i,
    {
        r.push(Vec::new());
        i = i + 1;
    }
    r
}

/// Prázdné seznamy splňují libovolnou mez.
proof fn lemma_prazdne_pod_mez(v: Seq<Vec<u32>>, mez: int)
    requires
        forall|u: int| 0 <= u < v.len() ==> (#[trigger] v[u])@.len() == 0,
    ensures
        pod_mez(v, mez),
{
}

/// Učitelé jednotek: maximum hodin za den každého učitele (neznámý učitel 8, nejméně 1),
/// učitelé každé jednotky a z nich ti, kterým je některá třída lekce preferovaná.
fn ucitele_jednotek(skola: &Skola, vs: &Vstup) -> (r: (Vec<u8>, Vec<Vec<u32>>, Vec<Vec<u32>>, Vec<u32>))
    requires
        jednotky_platne(vs.lekce@, vs.jednotky@),
        vs.lekce@.len() <= u32::MAX,
    ensures
        r.1@.len() == vs.jednotky@.len(),
        r.2@.len() == vs.jednotky@.len(),
        pod_mez(r.1@, r.0@.len() as int),
        pod_mez(r.2@, r.0@.len() as int),
        r.3@.len() == vs.lekce@.len(),
        forall|i: int| 0 <= i < vs.lekce@.len() ==> (#[trigger] r.3@[i]) < r.0@.len() && r.1@[vs.lekce@[i].jednotka as int]@.contains(r.3@[i]),
        forall|a: int, b: int|
            0 <= a < vs.lekce@.len() && 0 <= b < vs.lekce@.len() ==> (#[trigger] r.3@[a] == #[trigger] r.3@[b] <==> vs.lekce@[a].ucitel@
                == vs.lekce@[b].ucitel@),
{
    let n_u = vs.jednotky.len();
    let mut uc_ids: Vec<String> = Vec::new();
    let mut uc_lekce: Vec<u32> = Vec::new();
    let mut teach_max: Vec<u8> = Vec::new();
    let mut uteach = prazdne(n_u);
    let mut uteach_pref = prazdne(n_u);
    proof {
        lemma_prazdne_pod_mez(uteach@, 0);
        lemma_prazdne_pod_mez(uteach_pref@, 0);
    }
    let mut i: usize = 0;
    while i < vs.lekce.len()
        invariant
            i <= vs.lekce@.len(),
            vs.lekce@.len() <= u32::MAX,
            n_u == vs.jednotky@.len(),
            jednotky_platne(vs.lekce@, vs.jednotky@),
            uc_ids@.len() == teach_max@.len(),
            uc_ids@.len() <= i,
            uteach@.len() == n_u,
            uteach_pref@.len() == n_u,
            pod_mez(uteach@, teach_max@.len() as int),
            pod_mez(uteach_pref@, teach_max@.len() as int),
            uc_lekce@.len() == i,
            forall|x: int| 0 <= x < i ==> (#[trigger] uc_lekce@[x]) < teach_max@.len() && uteach@[vs.lekce@[x].jednotka as int]@.contains(uc_lekce@[x]),
            forall|x: int| 0 <= x < i ==> uc_ids@[(#[trigger] uc_lekce@[x]) as int]@ == vs.lekce@[x].ucitel@,
            forall|x: int, y: int| 0 <= x < y < uc_ids@.len() ==> #[trigger] uc_ids@[x]@ != #[trigger] uc_ids@[y]@,
        decreases vs.lekce@.len() - i,
    {
        let l = &vs.lekce[i];
        let u = l.jednotka;
        let mut t: usize = 0;
        let mut nalezeno = false;
        while t < uc_ids.len() && !nalezeno
            invariant
                t <= uc_ids@.len(),
                nalezeno ==> t < uc_ids@.len() && uc_ids@[t as int]@ == l.ucitel@,
                !nalezeno ==> forall|x: int| 0 <= x < t ==> uc_ids@[x]@ != l.ucitel@,
            decreases uc_ids@.len() - t + (if nalezeno { 0int } else { 1int }),
        {
            if crate::text::rovno(uc_ids[t].as_str(), l.ucitel.as_str()) {
                nalezeno = true;
            } else {
                t = t + 1;
            }
        }
        let ghost ut0 = uteach@;
        let ghost ids0 = uc_ids@;
        if !nalezeno {
            let mx: u8 = match skola.ucitel(l.ucitel.as_str()) {
                Some(x) => if x.max_den < 1 { 1 } else { x.max_den },
                None => 8,
            };
            uc_ids.push(l.ucitel.clone());
            teach_max.push(mx);
            t = uc_ids.len() - 1;
            proof {
                assert forall|w: int, k: int| 0 <= w < uteach@.len() && 0 <= k < uteach@[w]@.len() implies (#[trigger] uteach@[w]@[k]) < teach_max@.len() by {}
                assert forall|w: int, k: int| 0 <= w < uteach_pref@.len() && 0 <= k < uteach_pref@[w]@.len() implies (#[trigger] uteach_pref@[w]@[k]) < teach_max@.len() by {}
            }
        }
        pridej_do(&mut uteach, u, t as u32, true, Ghost(teach_max@.len() as int));
        let preferuje = match skola.ucitel(l.ucitel.as_str()) {
            Some(uc) => {
                let mut p = false;
                let mut k: usize = 0;
                while k < l.tridy.len()
                    invariant
                        k <= l.tridy@.len(),
                    decreases l.tridy@.len() - k,
                {
                    if crate::rok::obsahuje(&uc.preferovane_tridy, l.tridy[k].as_str()) {
                        p = true;
                    }
                    k = k + 1;
                }
                p
            },
            None => false,
        };
        if preferuje {
            pridej_do(&mut uteach_pref, u, t as u32, true, Ghost(teach_max@.len() as int));
        }
        uc_lekce.push(t as u32);
        proof {
            assert forall|x: int| 0 <= x < i + 1 implies (#[trigger] uc_lekce@[x]) < teach_max@.len() && uteach@[vs.lekce@[x].jednotka as int]@.contains(uc_lekce@[x]) by {
                if x < i {
                    if vs.lekce@[x].jednotka != u {
                        assert(uteach@[vs.lekce@[x].jednotka as int] == ut0[vs.lekce@[x].jednotka as int]);
                    }
                }
            }
            assert forall|x: int| 0 <= x < i + 1 implies uc_ids@[(#[trigger] uc_lekce@[x]) as int]@ == vs.lekce@[x].ucitel@ by {
                if x < i {
                    assert(uc_ids@[uc_lekce@[x] as int] == ids0[uc_lekce@[x] as int]);
                }
            }
            assert forall|x: int, y: int| 0 <= x < y < uc_ids@.len() implies #[trigger] uc_ids@[x]@ != #[trigger] uc_ids@[y]@ by {
                if y < ids0.len() {
                    assert(uc_ids@[x] == ids0[x] && uc_ids@[y] == ids0[y]);
                } else {
                    assert(uc_ids@[x] == ids0[x]);
                }
            }
        }
        i = i + 1;
    }
    proof {
        assert forall|a: int, b: int|
            0 <= a < vs.lekce@.len() && 0 <= b < vs.lekce@.len() implies (#[trigger] uc_lekce@[a] == #[trigger] uc_lekce@[b]
                <==> vs.lekce@[a].ucitel@ == vs.lekce@[b].ucitel@) by {
            assert(uc_ids@[uc_lekce@[a] as int]@ == vs.lekce@[a].ucitel@);
            assert(uc_ids@[uc_lekce@[b] as int]@ == vs.lekce@[b].ucitel@);
            if uc_lekce@[a] < uc_lekce@[b] {
                assert(uc_ids@[uc_lekce@[a] as int]@ != uc_ids@[uc_lekce@[b] as int]@);
            } else if uc_lekce@[a] > uc_lekce@[b] {
                assert(uc_ids@[uc_lekce@[b] as int]@ != uc_ids@[uc_lekce@[a] as int]@);
            }
        }
    }
    (teach_max, uteach, uteach_pref, uc_lekce)
}

/// Klíče předmětů jednotek: nejdelší lekce a největší skupina každého klíče a klíče
/// každé jednotky.
fn klice_jednotek(vs: &Vstup) -> (r: (Vec<u8>, Vec<i64>, Vec<Vec<u32>>))
    requires
        jednotky_platne(vs.lekce@, vs.jednotky@),
        vs.lekce@.len() <= u32::MAX,
    ensures
        r.0@.len() == r.1@.len(),
        r.2@.len() == vs.jednotky@.len(),
        pod_mez(r.2@, r.0@.len() as int),
{
    let n_u = vs.jednotky.len();
    let mut key_idx: Mapa<usize> = Mapa::new();
    let mut key_len: Vec<u8> = Vec::new();
    let mut key_size: Vec<i64> = Vec::new();
    let mut ukeys = prazdne(n_u);
    proof {
        lemma_prazdne_pod_mez(ukeys@, 0);
    }
    let mut i: usize = 0;
    while i < vs.lekce.len()
        invariant
            i <= vs.lekce@.len(),
            vs.lekce@.len() <= u32::MAX,
            n_u == vs.jednotky@.len(),
            jednotky_platne(vs.lekce@, vs.jednotky@),
            key_len@.len() == key_size@.len(),
            key_len@.len() <= i,
            ukeys@.len() == n_u,
            pod_mez(ukeys@, key_len@.len() as int),
            key_idx.dobre(),
            forall|x: Seq<char>| key_idx.ma(x) ==> key_idx.hodnota(x) < key_len@.len(),
        decreases vs.lekce@.len() - i,
    {
        let l = &vs.lekce[i];
        let k: usize = match key_idx.get(l.klic_predmetu.as_str()) {
            Some(k) => *k,
            None => {
                key_len.push(0);
                key_size.push(0);
                let k = key_len.len() - 1;
                key_idx.insert(l.klic_predmetu.clone(), k);
                proof {
                    assert forall|w: int, x: int| 0 <= w < ukeys@.len() && 0 <= x < ukeys@[w]@.len() implies (#[trigger] ukeys@[w]@[x]) < key_len@.len() by {}
                }
                k
            },
        };
        if l.len > key_len[k] {
            key_len.set(k, l.len);
        }
        let zaku: i64 = if l.zaci.len() as u64 > i64::MAX as u64 { i64::MAX } else { l.zaci.len() as i64 };
        if zaku > key_size[k] {
            key_size.set(k, zaku);
        }
        pridej_do(&mut ukeys, l.jednotka, k as u32, true, Ghost(key_len@.len() as int));
        i = i + 1;
    }
    (key_len, key_size, ukeys)
}

/// Podpis bazénu: seřazené odborné místnosti spojené „|“.
fn podpis(k: &Vec<String>) -> (r: (String, usize))
    ensures
        r.1 == k@.len(),
{
    let mut pocty: Mapa<usize> = Mapa::new();
    let mut i: usize = 0;
    while i < k.len()
        invariant
            i <= k@.len(),
            pocty.dobre(),
            forall|x: Seq<char>| pocty.ma(x) ==> pocty.hodnota(x) <= i,
        decreases k@.len() - i,
    {
        let n: usize = match pocty.get(k[i].as_str()) {
            Some(n) => *n,
            None => 0,
        };
        pocty.insert(k[i].clone(), n + 1);
        i = i + 1;
    }
    let mut s = String::new();
    let mut prvni = true;
    let mut j: usize = 0;
    while j < pocty.polozky.len()
        invariant
            j <= pocty.polozky@.len(),
        decreases pocty.polozky@.len() - j,
    {
        let mut c: usize = 0;
        while c < pocty.polozky[j].1
            invariant
                c <= pocty.polozky@[j as int].1,
                j < pocty.polozky@.len(),
            decreases pocty.polozky@[j as int].1 - c,
        {
            if !prvni {
                crate::text::pripoj(&mut s, "|");
            }
            crate::text::pripoj(&mut s, pocty.polozky[j].0.as_str());
            prvni = false;
            c = c + 1;
        }
        j = j + 1;
    }
    (s, k.len())
}

/// Bazény odborných místností: lekce, které nesmějí do kmenové třídy, sdílejí bazén
/// podle sady svých odborných místností; kapacita bazénu je počet místností (nejvýš 250).
fn bazeny(vs: &Vstup) -> (r: (Vec<u8>, Vec<Vec<(u32, u8)>>))
    requires
        jednotky_platne(vs.lekce@, vs.jednotky@),
        vs.lekce@.len() <= u32::MAX,
    ensures
        r.1@.len() == vs.jednotky@.len(),
        r.0@.len() <= vs.lekce@.len(),
        forall|u: int, k: int|
            0 <= u < r.1@.len() && 0 <= k < r.1@[u]@.len() ==> (#[trigger] r.1@[u]@[k]).0 < r.0@.len() && 1 <= r.1@[u]@[k].1
                <= 3,
{
    let n_u = vs.jednotky.len();
    let mut pool_idx: Mapa<usize> = Mapa::new();
    let mut pool_cap: Vec<u8> = Vec::new();
    let mut upools: Vec<Vec<(u32, u8)>> = Vec::new();
    let mut x: usize = 0;
    while x < n_u
        invariant
            x <= n_u,
            upools@.len() == x,
            forall|u: int| 0 <= u < x ==> (#[trigger] upools@[u])@.len() == 0,
        decreases n_u - x,
    {
        upools.push(Vec::new());
        x = x + 1;
    }
    let mut i: usize = 0;
    while i < vs.lekce.len()
        invariant
            i <= vs.lekce@.len(),
            vs.lekce@.len() <= u32::MAX,
            n_u == vs.jednotky@.len(),
            jednotky_platne(vs.lekce@, vs.jednotky@),
            pool_cap@.len() <= i,
            upools@.len() == n_u,
            forall|u: int, k: int|
                0 <= u < upools@.len() && 0 <= k < upools@[u]@.len() ==> (#[trigger] upools@[u]@[k]).0 < pool_cap@.len()
                    && 1 <= upools@[u]@[k].1 <= 3,
            pool_idx.dobre(),
            forall|y: Seq<char>| pool_idx.ma(y) ==> pool_idx.hodnota(y) < pool_cap@.len(),
        decreases vs.lekce@.len() - i,
    {
        let l = &vs.lekce[i];
        if !l.kmenova_ok && l.kandidati.len() > 0 {
            let (sig, n) = podpis(&l.kandidati);
            let p: usize = match pool_idx.get(sig.as_str()) {
                Some(p) => *p,
                None => {
                    pool_cap.push(if n < 250 { n as u8 } else { 250 });
                    let p = pool_cap.len() - 1;
                    pool_idx.insert(sig, p);
                    p
                },
            };
            let maska = l.tyden.maska();
            let u = l.jednotka;
            let ghost up0 = upools@;
            upools[u].push((p as u32, maska));
            proof {
                assert forall|w: int, k: int|
                    0 <= w < upools@.len() && 0 <= k < upools@[w]@.len() implies (#[trigger] upools@[w]@[k]).0 < pool_cap@.len()
                        && 1 <= upools@[w]@[k].1 <= 3 by {
                    if w != u {
                        assert(upools@[w] == up0[w]);
                    } else if k < up0[w]@.len() {
                        assert(upools@[w]@[k] == up0[w]@[k]);
                    }
                }
            }
        }
        i = i + 1;
    }
    (pool_cap, upools)
}

/// Začátek `s` se pro jednotku délky `len` vejde do dne.
pub open spec fn vejde(s: int, len: int) -> bool {
    0 <= s < N_SLOTU && s % (SLOTU as int) + len <= SLOTU
}

/// Pin poslední lekce jednotky (v pořadí členů), jejíž pin se vejde do dne.
pub open spec fn pin_jednotky(cl: Seq<usize>, lekce: Seq<LekceInfo>, piny: Mapa<u8>, len: int) -> Option<int>
    decreases cl.len(),
{
    if cl.len() == 0 {
        None
    } else {
        let k = lekce[cl.last() as int].klic@;
        if piny.ma(k) && vejde(piny.hodnota(k) as int, len) {
            Some(piny.hodnota(k) as int)
        } else {
            pin_jednotky(cl.drop_last(), lekce, piny, len)
        }
    }
}

/// Pin jednotky se vejde do dne.
proof fn lemma_pin_vejde(cl: Seq<usize>, lekce: Seq<LekceInfo>, piny: Mapa<u8>, len: int)
    ensures
        match pin_jednotky(cl, lekce, piny, len) {
            Some(p) => vejde(p, len),
            None => true,
        },
    decreases cl.len(),
{
    if cl.len() > 0 {
        lemma_pin_vejde(cl.drop_last(), lekce, piny, len);
    }
}

/// Maska povolených začátků odpovídá pinu jednotky: s pinem jen pin, jinak jen začátky,
/// které se vejdou do dne, a aspoň jeden.
pub open spec fn maska_s_pinem(a: Seq<bool>, pin: Option<int>, len: int) -> bool {
    &&& a.len() == N_SLOTU
    &&& nejaky_povoleny(a)
    &&& match pin {
        Some(p) => forall|s: int| 0 <= s < N_SLOTU ==> (#[trigger] a[s] <==> s == p),
        None => forall|s: int| 0 <= s < N_SLOTU && #[trigger] a[s] ==> vejde(s, len),
    }
}

/// Učitel `ucitel` (první s tím id) má volno v některé z hodin `s..s+len`.
pub open spec fn ma_volno_spec(skola: Skola, ucitel: Seq<char>, s: int, len: int) -> bool {
    let u = crate::data::index_ucitele(skola.ucitele@, ucitel);
    u >= 0 && exists|x: int| s <= x < s + len && #[trigger] skola.ucitele@[u].volno@.contains(x as u8)
}

/// Hodina `x` je v seznamu volna učitele.
fn ma_volno(skola: &Skola, ucitel: &str, s: usize, len: usize) -> (r: bool)
    requires
        s + len <= N_SLOTU,
    ensures
        r == ma_volno_spec(*skola, ucitel@, s as int, len as int),
{
    match skola.ucitel(ucitel) {
        Some(uc) => {
            let ghost ui = crate::data::index_ucitele(skola.ucitele@, ucitel@);
            let mut x = s;
            while x < s + len
                invariant
                    s <= x <= s + len,
                    s + len <= N_SLOTU,
                    ui >= 0 && *uc == skola.ucitele@[ui],
                    ui == crate::data::index_ucitele(skola.ucitele@, ucitel@),
                    forall|y: int| s <= y < x ==> !#[trigger] skola.ucitele@[ui].volno@.contains(y as u8),
                decreases s + len - x,
            {
                let mut k: usize = 0;
                while k < uc.volno.len()
                    invariant
                        k <= uc.volno@.len(),
                        x < N_SLOTU,
                        forall|j: int| 0 <= j < k ==> uc.volno@[j] != x as u8,
                        *uc == skola.ucitele@[ui],
                        s <= x < s + len,
                        ui >= 0,
                        ui == crate::data::index_ucitele(skola.ucitele@, ucitel@),
                    decreases uc.volno@.len() - k,
                {
                    if uc.volno[k] as usize == x {
                        proof {
                            assert(uc.volno@[k as int] == x as u8);
                            assert(skola.ucitele@[ui].volno@[k as int] == x as u8);
                            assert(skola.ucitele@[ui].volno@.contains(x as u8));
                        }
                        return true;
                    }
                    k = k + 1;
                }
                proof {
                    assert(!skola.ucitele@[ui].volno@.contains(x as u8)) by {
                        if skola.ucitele@[ui].volno@.contains(x as u8) {
                            let j = choose|j: int| 0 <= j < uc.volno@.len() && uc.volno@[j] == x as u8;
                        }
                    }
                }
                x = x + 1;
            }
            false
        },
        None => false,
    }
}

/// Třída `tr` (bez masky je volná) dovolí hodiny `k..k+len`.
pub open spec fn trida_dovoli(masky: Mapa<Vec<bool>>, tr: Seq<char>, k: int, len: int) -> bool {
    masky.ma(tr) ==> forall|x: int| k <= x < k + len ==> #[trigger] masky.hodnota(tr)@[x]
}

/// Hodiny `k..k+len` dne jsou povolené pro všechny třídy lekce.
fn tridy_dovoli(masky: &Mapa<Vec<bool>>, tridy: &Vec<String>, k: usize, len: usize) -> (r: bool)
    requires
        masky.dobre(),
        forall|x: Seq<char>| masky.ma(x) ==> masky.hodnota(x)@.len() == SLOTU,
        k + len <= SLOTU,
    ensures
        r == forall|t: int| 0 <= t < tridy@.len() ==> trida_dovoli(*masky, (#[trigger] tridy@[t])@, k as int, len as int),
{
    let mut t: usize = 0;
    while t < tridy.len()
        invariant
            t <= tridy@.len(),
            masky.dobre(),
            forall|x: Seq<char>| masky.ma(x) ==> masky.hodnota(x)@.len() == SLOTU,
            k + len <= SLOTU,
            forall|j: int| 0 <= j < t ==> trida_dovoli(*masky, (#[trigger] tridy@[j])@, k as int, len as int),
        decreases tridy@.len() - t,
    {
        match masky.get(tridy[t].as_str()) {
            Some(m) => {
                let mut x = k;
                while x < k + len
                    invariant
                        k <= x <= k + len,
                        k + len <= SLOTU,
                        m@.len() == SLOTU,
                        masky.ma(tridy@[t as int]@) && *m == masky.hodnota(tridy@[t as int]@),
                        forall|y: int| k <= y < x ==> #[trigger] m@[y],
                        t < tridy@.len(),
                    decreases k + len - x,
                {
                    if !m[x] {
                        proof {
                            assert(!trida_dovoli(*masky, tridy@[t as int]@, k as int, len as int));
                        }
                        return false;
                    }
                    x = x + 1;
                }
            },
            None => {},
        }
        t = t + 1;
    }
    true
}

/// Povolené začátky jednotek: sloty, kde se jednotka vejde do dne a všechny její lekce
/// splňují limity P1 tříd i volno učitele (když takový slot není, nouzově všechny, které se
/// vejdou); pin lekce (který se vejde do dne) povolí jen svůj slot.
/// Varování o pinu lekce s klíčem `klic`, který by jednotku posunul mimo den.
pub open spec fn text_pinu_mimo_den(klic: Seq<char>) -> Seq<char> {
    "Pin "@ + klic + " nelze aplikovat (slot mimo den)."@
}

/// Lekce `i` má pin, se kterým by jednotka délky `len` nezačínala v týdnu nebo přesáhla den.
pub open spec fn pin_mimo_den(lekce: Seq<LekceInfo>, piny: Mapa<u8>, i: int, len: int) -> bool {
    piny.ma(lekce[i].klic@) && !(piny.hodnota(lekce[i].klic@) < N_SLOTU && (piny.hodnota(lekce[i].klic@) as int) % (SLOTU as int) + len <= SLOTU)
}

/// Piny mimo den jsou nahlášené u členů jednotek před jednotkou `un` a u prvních `qn` členů
/// jednotky `un`.
pub open spec fn piny_hlaseny(vs: Vstup, piny: Mapa<u8>, ulen: Seq<u8>, w: Seq<String>, un: int, qn: int) -> bool {
    forall|x: int, k: int|
        0 <= x < vs.jednotky@.len() && 0 <= k < vs.jednotky@[x]@.len() && (x < un || (x == un && k < qn)) && pin_mimo_den(
            vs.lekce@,
            piny,
            #[trigger] vs.jednotky@[x]@[k] as int,
            ulen[x] as int,
        ) ==> crate::validation::hlasi(w, text_pinu_mimo_den(vs.lekce@[vs.jednotky@[x]@[k] as int].klic@))
}

/// Některá lekce má klíč `k`.
pub open spec fn ma_lekci_s_klicem(lekce: Seq<crate::solver::LekceInfo>, k: Seq<char>) -> bool {
    exists|i: int| 0 <= i < lekce.len() && #[trigger] lekce[i].klic@ == k
}

/// Text varování pinu, který neodpovídá žádné lekci.
pub open spec fn text_pinu_bez_lekce(k: Seq<char>) -> Seq<char> {
    "Pin "@ + k + " neodpovídá žádné lekci (data se změnila) – neaplikován."@
}

proof fn lemma_piny_push(vs: Vstup, piny: Mapa<u8>, ulen: Seq<u8>, w: Seq<String>, x: String, un: int, qn: int)
    requires
        piny_hlaseny(vs, piny, ulen, w, un, qn),
    ensures
        piny_hlaseny(vs, piny, ulen, w.push(x), un, qn),
{
    assert forall|a: int, k: int|
        0 <= a < vs.jednotky@.len() && 0 <= k < vs.jednotky@[a]@.len() && (a < un || (a == un && k < qn)) && pin_mimo_den(
            vs.lekce@,
            piny,
            #[trigger] vs.jednotky@[a]@[k] as int,
            ulen[a] as int,
        ) implies crate::validation::hlasi(w.push(x), text_pinu_mimo_den(vs.lekce@[vs.jednotky@[a]@[k] as int].klic@)) by {
        crate::validation::lemma_hlasi_push(w, x, text_pinu_mimo_den(vs.lekce@[vs.jednotky@[a]@[k] as int].klic@));
    }
}

/// Masky tříd odpovídají jejich limitům P1.
pub open spec fn masky_limitu(masky: Mapa<Vec<bool>>, limity: Mapa<Omezeni>, odpo_od: int) -> bool {
    &&& forall|x: Seq<char>| #[trigger] masky.ma(x) == limity.ma(x)
    &&& forall|x: Seq<char>, i: int|
        masky.ma(x) && 0 <= i < SLOTU ==> #[trigger] masky.hodnota(x)@[i] == crate::solver::maska_spec(limity.hodnota(x), odpo_od, i)
}

/// Limit třídy `tr` dovoluje hodiny `k..k+len` dne (třída bez limitu všechny).
pub open spec fn limit_dovoli(limity: Mapa<Omezeni>, odpo_od: int, tr: Seq<char>, k: int, len: int) -> bool {
    limity.ma(tr) ==> forall|x: int| k <= x < k + len ==> #[trigger] crate::solver::maska_spec(limity.hodnota(tr), odpo_od, x)
}

/// Lekce `l` smí začít v `s`: její učitel v hodinách `s..s+len` nemá volno a limity všech
/// jejích tříd ty hodiny dovolují.
pub open spec fn lekce_dovoli(skola: Skola, limity: Mapa<Omezeni>, odpo_od: int, l: LekceInfo, s: int, len: int) -> bool {
    &&& !ma_volno_spec(skola, l.ucitel@, s, len)
    &&& forall|t: int| 0 <= t < l.tridy@.len() ==> limit_dovoli(limity, odpo_od, (#[trigger] l.tridy@[t])@, s % (SLOTU as int), len)
}

/// Jednotka `u` délky `len` smí začít v `s`: vejde se do dne a dovolí to každá její lekce.
pub open spec fn start_dovolen(skola: Skola, vs: Vstup, limity: Mapa<Omezeni>, odpo_od: int, u: int, s: int, len: int) -> bool {
    &&& vejde(s, len)
    &&& forall|q: int|
        0 <= q < vs.jednotky@[u]@.len() ==> lekce_dovoli(skola, limity, odpo_od, vs.lekce@[(#[trigger] vs.jednotky@[u]@[q]) as int], s, len)
}

/// Povolené začátky jednotky bez pinu: dovolené začátky, a není-li žádný, každý začátek,
/// který se vejde do dne.
pub open spec fn zakladni_maska(skola: Skola, vs: Vstup, limity: Mapa<Omezeni>, odpo_od: int, u: int, len: int) -> Seq<bool> {
    if exists|s: int| 0 <= s < N_SLOTU && #[trigger] start_dovolen(skola, vs, limity, odpo_od, u, s, len) {
        Seq::new(N_SLOTU as nat, |s: int| start_dovolen(skola, vs, limity, odpo_od, u, s, len))
    } else {
        Seq::new(N_SLOTU as nat, |s: int| vejde(s, len))
    }
}

/// Podle masek odpovídajících limitům dovolí třída hodiny právě tehdy, když je dovolí limit.
proof fn lemma_masky_limitu(masky: Mapa<Vec<bool>>, limity: Mapa<Omezeni>, odpo_od: int, tr: Seq<char>, k: int, len: int)
    requires
        masky_limitu(masky, limity, odpo_od),
        0 <= k,
        k + len <= SLOTU,
    ensures
        trida_dovoli(masky, tr, k, len) == limit_dovoli(limity, odpo_od, tr, k, len),
{
    assert(masky.ma(tr) == limity.ma(tr));
    if masky.ma(tr) {
        if trida_dovoli(masky, tr, k, len) {
            assert forall|x: int| k <= x < k + len implies #[trigger] crate::solver::maska_spec(limity.hodnota(tr), odpo_od, x) by {
                assert(masky.hodnota(tr)@[x]);
            }
        }
        if limit_dovoli(limity, odpo_od, tr, k, len) {
            assert forall|x: int| k <= x < k + len implies #[trigger] masky.hodnota(tr)@[x] by {
                assert(crate::solver::maska_spec(limity.hodnota(tr), odpo_od, x));
            }
        }
    }
}

fn povolene_starty(
    skola: &Skola,
    vs: &Vstup,
    ulen: &Vec<u8>,
    masky: &Mapa<Vec<bool>>,
    piny: &Mapa<u8>,
    varovani: &mut Vec<String>,
    Ghost(limity): Ghost<Mapa<Omezeni>>,
    Ghost(odpo_od): Ghost<int>,
) -> (a: Vec<Vec<bool>>)
    requires
        masky_limitu(*masky, limity, odpo_od),
        jednotky_platne(vs.lekce@, vs.jednotky@),
        ulen@.len() == vs.jednotky@.len(),
        forall|u: int| 0 <= u < ulen@.len() ==> 1 <= #[trigger] ulen@[u] <= 2,
        masky.dobre(),
        forall|x: Seq<char>| masky.ma(x) ==> masky.hodnota(x)@.len() == SLOTU,
        piny.dobre(),
    ensures
        crate::solver::zacina_na(old(varovani)@, final(varovani)@),
        piny_hlaseny(*vs, *piny, ulen@, final(varovani)@, vs.jednotky@.len() as int, 0),
        forall|x: Seq<char>|
            piny.ma(x) && !ma_lekci_s_klicem(vs.lekce@, x) ==> crate::validation::hlasi(final(varovani)@, #[trigger] text_pinu_bez_lekce(x)),
        a@.len() == vs.jednotky@.len(),
        forall|u: int|
            0 <= u < a@.len() ==> maska_s_pinem(
                #[trigger] a@[u]@,
                pin_jednotky(vs.jednotky@[u]@, vs.lekce@, *piny, ulen@[u] as int),
                ulen@[u] as int,
            ),
        forall|u: int|
            0 <= u < a@.len() && pin_jednotky(vs.jednotky@[u]@, vs.lekce@, *piny, ulen@[u] as int) is None ==> #[trigger] a@[u]@
                == zakladni_maska(*skola, *vs, limity, odpo_od, u, ulen@[u] as int),
{
    let n_u = vs.jednotky.len();
    let mut allowed: Vec<Vec<bool>> = Vec::new();
    let mut pinovane: Mapa<bool> = Mapa::new();
    let mut u: usize = 0;
    while u < n_u
        invariant
        piny_hlaseny(*vs, *piny, ulen@, varovani@, u as int, 0),
        crate::solver::zacina_na(old(varovani)@, varovani@),
            u <= n_u,
            n_u == vs.jednotky@.len(),
            jednotky_platne(vs.lekce@, vs.jednotky@),
            ulen@.len() == n_u,
            forall|x: int| 0 <= x < ulen@.len() ==> 1 <= #[trigger] ulen@[x] <= 2,
            masky.dobre(),
            forall|x: Seq<char>| masky.ma(x) ==> masky.hodnota(x)@.len() == SLOTU,
            piny.dobre(),
            pinovane.dobre(),
            allowed@.len() == u,
            forall|x: int|
                0 <= x < u ==> maska_s_pinem(
                    #[trigger] allowed@[x]@,
                    pin_jednotky(vs.jednotky@[x]@, vs.lekce@, *piny, ulen@[x] as int),
                    ulen@[x] as int,
                ),
            masky_limitu(*masky, limity, odpo_od),
            forall|x: Seq<char>| pinovane.ma(x) ==> ma_lekci_s_klicem(vs.lekce@, x),
            forall|x: int|
                0 <= x < u && pin_jednotky(vs.jednotky@[x]@, vs.lekce@, *piny, ulen@[x] as int) is None ==> #[trigger] allowed@[x]@
                    == zakladni_maska(*skola, *vs, limity, odpo_od, x, ulen@[x] as int),
        decreases n_u - u,
    {
        let j = &vs.jednotky[u];
        let len = ulen[u] as usize;
        let mut mask: Vec<bool> = Vec::new();
        let mut fit: Vec<bool> = Vec::new();
        let mut nejaky = false;
        let mut s: usize = 0;
        while s < N_SLOTU
            invariant
            piny_hlaseny(*vs, *piny, ulen@, varovani@, u as int, 0),
            crate::solver::zacina_na(old(varovani)@, varovani@),
                s <= N_SLOTU,
                1 <= len <= 2,
                *j == vs.jednotky@[u as int],
                u < vs.jednotky@.len(),
                jednotky_platne(vs.lekce@, vs.jednotky@),
                masky.dobre(),
                forall|x: Seq<char>| masky.ma(x) ==> masky.hodnota(x)@.len() == SLOTU,
                mask@.len() == s,
                fit@.len() == s,
                forall|x: int| 0 <= x < s ==> (#[trigger] fit@[x] <==> vejde(x, len as int)),
                forall|x: int| 0 <= x < s && #[trigger] mask@[x] ==> vejde(x, len as int),
                nejaky <==> nejaky_povoleny(mask@),
                masky_limitu(*masky, limity, odpo_od),
                len == ulen@[u as int],
                forall|x: int| 0 <= x < s ==> #[trigger] mask@[x] == start_dovolen(*skola, *vs, limity, odpo_od, u as int, x, len as int),
            decreases N_SLOTU - s,
        {
            let k = s % SLOTU;
            if k + len > SLOTU {
                let ghost m0 = mask@;
                fit.push(false);
                mask.push(false);
                proof {
                    assert(!vejde(s as int, len as int));
                    assert forall|x: int| 0 <= x < s + 1 implies #[trigger] mask@[x] == start_dovolen(*skola, *vs, limity, odpo_od, u as int, x, len as int) by {
                        if x < s {
                            assert(mask@[x] == m0[x]);
                        }
                    }
                    assert(mask@.drop_last() =~= m0);
                    assert(nejaky_povoleny(mask@) <==> nejaky_povoleny(mask@.drop_last())) by {
                        if nejaky_povoleny(mask@) {
                            let w = choose|w: int| 0 <= w < mask@.len() && #[trigger] mask@[w];
                            assert(mask@.drop_last()[w]);
                        }
                        if nejaky_povoleny(mask@.drop_last()) {
                            let w = choose|w: int| 0 <= w < mask@.drop_last().len() && #[trigger] mask@.drop_last()[w];
                            assert(mask@[w]);
                        }
                    }
                }
            } else {
                fit.push(true);
                let mut ok = true;
                let mut q: usize = 0;
                while q < j.len() && ok
                    invariant
                    piny_hlaseny(*vs, *piny, ulen@, varovani@, u as int, 0),
                    crate::solver::zacina_na(old(varovani)@, varovani@),
                        q <= j@.len(),
                        *j == vs.jednotky@[u as int],
                        u < vs.jednotky@.len(),
                        jednotky_platne(vs.lekce@, vs.jednotky@),
                        masky.dobre(),
                        forall|x: Seq<char>| masky.ma(x) ==> masky.hodnota(x)@.len() == SLOTU,
                        k + len <= SLOTU,
                        s < N_SLOTU,
                        k == s % SLOTU,
                        masky_limitu(*masky, limity, odpo_od),
                        ok <==> forall|q2: int| 0 <= q2 < q ==> lekce_dovoli(*skola, limity, odpo_od, vs.lekce@[(#[trigger] j@[q2]) as int], s as int, len as int),
                    decreases j@.len() - q,
                {
                    proof {
                        assert(j@[q as int] < vs.lekce@.len());
                    }
                    let l = &vs.lekce[j[q]];
                    let zakaz = ma_volno(skola, l.ucitel.as_str(), s, len) || !tridy_dovoli(masky, &l.tridy, k, len);
                    proof {
                        assert forall|t: int| 0 <= t < l.tridy@.len() implies trida_dovoli(*masky, (#[trigger] l.tridy@[t])@, k as int, len as int)
                            == limit_dovoli(limity, odpo_od, l.tridy@[t]@, k as int, len as int) by {
                            lemma_masky_limitu(*masky, limity, odpo_od, l.tridy@[t]@, k as int, len as int);
                        }
                        assert(zakaz == !lekce_dovoli(*skola, limity, odpo_od, *l, s as int, len as int));
                    }
                    if zakaz {
                        ok = false;
                    }
                    q = q + 1;
                }
                let ghost m0 = mask@;
                mask.push(ok);
                proof {
                    if ok {
                        assert(q == j@.len());
                    } else {
                        let q2 = choose|q2: int| 0 <= q2 < q && !lekce_dovoli(*skola, limity, odpo_od, vs.lekce@[(#[trigger] j@[q2]) as int], s as int, len as int);
                        assert(!lekce_dovoli(*skola, limity, odpo_od, vs.lekce@[(vs.jednotky@[u as int]@[q2]) as int], s as int, len as int));
                    }
                    assert(ok == start_dovolen(*skola, *vs, limity, odpo_od, u as int, s as int, len as int));
                    assert forall|x: int| 0 <= x < s + 1 implies #[trigger] mask@[x] == start_dovolen(*skola, *vs, limity, odpo_od, u as int, x, len as int) by {
                        if x < s {
                            assert(mask@[x] == m0[x]);
                        }
                    }
                    assert(mask@.drop_last() =~= m0);
                    if ok {
                        assert(mask@[s as int]);
                    }
                    assert(nejaky_povoleny(mask@) <==> (nejaky_povoleny(m0) || ok)) by {
                        if nejaky_povoleny(mask@) {
                            let w = choose|w: int| 0 <= w < mask@.len() && #[trigger] mask@[w];
                            if w < s {
                                assert(m0[w]);
                            }
                        }
                        if nejaky_povoleny(m0) {
                            let w = choose|w: int| 0 <= w < m0.len() && #[trigger] m0[w];
                            assert(mask@[w]);
                        }
                    }
                }
                if ok {
                    nejaky = true;
                }
            }
            s = s + 1;
        }
        let ghost m_s = mask@;
        if !nejaky {
            proof {
                assert(j@.len() > 0);
                assert(j@[0] < vs.lekce@.len());
            }
            let l = &vs.lekce[j[0]];
            let tr = crate::text::spoj_oddelene(&l.tridy, "+");
            let ghost w0 = varovani@;
            varovani.push(crate::text::spoj(&["Lekce ", l.predmet.as_str(), " (", tr.as_str(), ") nemá žádný povolený slot (limity P1 / volno učitele) – umístěna nouzově."]));
            proof {
                lemma_piny_push(*vs, *piny, ulen@, w0, varovani@.last(), u as int, 0);
                assert(varovani@ == w0.push(varovani@.last()));
            }
            mask = fit;
            proof {
                assert(mask@[0]);
            }
        }
        let ghost zaklad = mask@;
        proof {
            let zm = zakladni_maska(*skola, *vs, limity, odpo_od, u as int, len as int);
            if exists|s2: int| 0 <= s2 < N_SLOTU && #[trigger] start_dovolen(*skola, *vs, limity, odpo_od, u as int, s2, len as int) {
                let s2 = choose|s2: int| 0 <= s2 < N_SLOTU && #[trigger] start_dovolen(*skola, *vs, limity, odpo_od, u as int, s2, len as int);
                assert(m_s[s2]);
                assert(nejaky_povoleny(m_s));
                assert(nejaky);
                assert(zaklad == mask@);
                assert forall|x: int| 0 <= x < N_SLOTU implies #[trigger] zaklad[x] == zm[x] by {
                    assert(mask@[x] == start_dovolen(*skola, *vs, limity, odpo_od, u as int, x, len as int));
                }
                assert(zaklad =~= zm);
            } else {
                if nejaky {
                    let w = choose|w: int| 0 <= w < m_s.len() && #[trigger] m_s[w];
                    assert(start_dovolen(*skola, *vs, limity, odpo_od, u as int, w, len as int));
                }
                assert(!nejaky);
                assert(zaklad == fit@);
                assert forall|x: int| 0 <= x < N_SLOTU implies #[trigger] zaklad[x] == zm[x] by {
                    assert(fit@[x] == vejde(x, len as int));
                }
                assert(zaklad =~= zm);
            }
        }
        let mut q: usize = 0;
        while q < j.len()
            invariant
            piny_hlaseny(*vs, *piny, ulen@, varovani@, u as int, q as int),
            crate::solver::zacina_na(old(varovani)@, varovani@),
                q <= j@.len(),
                *j == vs.jednotky@[u as int],
                u < vs.jednotky@.len(),
                u < ulen@.len(),
                len == ulen@[u as int],
                1 <= len <= 2,
                jednotky_platne(vs.lekce@, vs.jednotky@),
                piny.dobre(),
                pinovane.dobre(),
                forall|x: Seq<char>| pinovane.ma(x) ==> ma_lekci_s_klicem(vs.lekce@, x),
                zaklad.len() == N_SLOTU,
                nejaky_povoleny(zaklad),
                forall|x: int| 0 <= x < N_SLOTU && #[trigger] zaklad[x] ==> vejde(x, len as int),
                match pin_jednotky(j@.take(q as int), vs.lekce@, *piny, len as int) {
                    Some(p) => mask@.len() == N_SLOTU && forall|x: int| 0 <= x < N_SLOTU ==> (#[trigger] mask@[x] <==> x == p),
                    None => mask@ == zaklad,
                },
            decreases j@.len() - q,
        {
            proof {
                assert(j@[q as int] < vs.lekce@.len());
                assert(j@.take(q + 1).drop_last() =~= j@.take(q as int));
                assert(j@.take(q + 1).last() == j@[q as int]);
            }
            let l = &vs.lekce[j[q]];
            match piny.get(l.klic.as_str()) {
                Some(pin) => {
                    pinovane.insert(l.klic.clone(), true);
                    proof {
                        assert forall|x: Seq<char>| pinovane.ma(x) implies ma_lekci_s_klicem(vs.lekce@, x) by {
                            if x == l.klic@ {
                                assert(vs.lekce@[j@[q as int] as int].klic@ == x);
                            }
                        }
                    }
                    let p = *pin as usize;
                    if p < N_SLOTU && p % SLOTU + len <= SLOTU {
                        let mut m: Vec<bool> = Vec::new();
                        let mut x: usize = 0;
                        while x < N_SLOTU
                            invariant
                            piny_hlaseny(*vs, *piny, ulen@, varovani@, u as int, q as int),
                            crate::solver::zacina_na(old(varovani)@, varovani@),
                                x <= N_SLOTU,
                                m@.len() == x,
                                forall|y: int| 0 <= y < x ==> (#[trigger] m@[y] <==> y == p),
                            decreases N_SLOTU - x,
                        {
                            m.push(x == p);
                            x = x + 1;
                        }
                        mask = m;
                    } else {
                        let ghost w0 = varovani@;
                        let casti = ["Pin ", l.klic.as_str(), " nelze aplikovat (slot mimo den)."];
                        let text = crate::text::spoj(&casti);
                        proof {
                            let c = casti@.map_values(|x: &str| x@);
                            assert(c =~= seq!["Pin "@, l.klic@, " nelze aplikovat (slot mimo den)."@]);
                            reveal_with_fuel(crate::text::spojeni, 4);
                            assert(text@ =~= text_pinu_mimo_den(l.klic@));
                        }
                        varovani.push(text);
                        proof {
                            lemma_piny_push(*vs, *piny, ulen@, w0, text, u as int, q as int);
                            assert(varovani@ == w0.push(text));
                            assert(varovani@[w0.len() as int]@ == text_pinu_mimo_den(l.klic@));
                        }
                    }
                },
                None => {},
            }
            q = q + 1;
        }
        proof {
            assert(j@.take(j@.len() as int) =~= j@);
            lemma_pin_vejde(j@, vs.lekce@, *piny, len as int);
            match pin_jednotky(j@, vs.lekce@, *piny, len as int) {
                Some(p) => {
                    assert(mask@[p]);
                    assert(nejaky_povoleny(mask@));
                },
                None => {},
            }
            assert(maska_s_pinem(mask@, pin_jednotky(vs.jednotky@[u as int]@, vs.lekce@, *piny, ulen@[u as int] as int), ulen@[u as int] as int));
        }
        let ghost a0 = allowed@;
        allowed.push(mask);
        proof {
            assert forall|x: int|
                0 <= x < u + 1 implies maska_s_pinem(
                    #[trigger] allowed@[x]@,
                    pin_jednotky(vs.jednotky@[x]@, vs.lekce@, *piny, ulen@[x] as int),
                    ulen@[x] as int,
                ) by {
                if x < u {
                    assert(allowed@[x] == a0[x]);
                }
            }
            assert forall|x: int|
                0 <= x < u + 1 && pin_jednotky(vs.jednotky@[x]@, vs.lekce@, *piny, ulen@[x] as int) is None implies #[trigger] allowed@[x]@
                    == zakladni_maska(*skola, *vs, limity, odpo_od, x, ulen@[x] as int) by {
                if x < u {
                    assert(allowed@[x] == a0[x]);
                }
            }
        }
        u = u + 1;
    }
    let mut k: usize = 0;
    while k < piny.polozky.len()
        invariant
        piny_hlaseny(*vs, *piny, ulen@, varovani@, vs.jednotky@.len() as int, 0),
        crate::solver::zacina_na(old(varovani)@, varovani@),
            k <= piny.polozky@.len(),
            pinovane.dobre(),
            forall|x: Seq<char>| pinovane.ma(x) ==> ma_lekci_s_klicem(vs.lekce@, x),
            forall|kk: int|
                0 <= kk < k && !ma_lekci_s_klicem(vs.lekce@, (#[trigger] piny.polozky@[kk]).0@) ==> crate::validation::hlasi(
                    varovani@,
                    text_pinu_bez_lekce(piny.polozky@[kk].0@),
                ),
        decreases piny.polozky@.len() - k,
    {
        if !pinovane.contains_key(piny.polozky[k].0.as_str()) {
            let ghost w0 = varovani@;
            let casti = ["Pin ", piny.polozky[k].0.as_str(), " neodpovídá žádné lekci (data se změnila) – neaplikován."];
            let text = crate::text::spoj(&casti);
            proof {
                reveal_with_fuel(crate::text::spojeni, 4);
                assert(casti@.map_values(|x: &str| x@) =~= seq![casti@[0]@, casti@[1]@, casti@[2]@]);
                assert(text@ == text_pinu_bez_lekce(piny.polozky@[k as int].0@));
            }
            varovani.push(text);
            proof {
                lemma_piny_push(*vs, *piny, ulen@, w0, varovani@.last(), vs.jednotky@.len() as int, 0);
                assert(varovani@ == w0.push(varovani@.last()));
                assert forall|kk: int|
                    0 <= kk < k + 1 && !ma_lekci_s_klicem(vs.lekce@, (#[trigger] piny.polozky@[kk]).0@) implies crate::validation::hlasi(
                        varovani@,
                        text_pinu_bez_lekce(piny.polozky@[kk].0@),
                    ) by {
                    if kk < k {
                        crate::validation::lemma_hlasi_push(w0, varovani@.last(), text_pinu_bez_lekce(piny.polozky@[kk].0@));
                    } else {
                        assert(varovani@[w0.len() as int]@ == text_pinu_bez_lekce(piny.polozky@[kk].0@));
                    }
                }
            }
        }
        k = k + 1;
    }
    proof {
        assert forall|x: Seq<char>| piny.ma(x) && !ma_lekci_s_klicem(vs.lekce@, x) implies crate::validation::hlasi(
            varovani@,
            #[trigger] text_pinu_bez_lekce(x),
        ) by {
            let kk = choose|kk: int| 0 <= kk < piny.polozky@.len() && #[trigger] piny.polozky@[kk].0@ == x;
            assert(!ma_lekci_s_klicem(vs.lekce@, piny.polozky@[kk].0@));
        }
    }
    allowed
}

/// Matice konfliktů je čtvercová, souměrná a bez diagonály.
pub open spec fn konflikty_dobre(c: Seq<Vec<bool>>, n: int) -> bool {
    &&& c.len() == n
    &&& forall|u: int| 0 <= u < n ==> (#[trigger] c[u])@.len() == n
    &&& forall|u: int, v: int| 0 <= u < n && 0 <= v < n ==> #[trigger] c[u]@[v] == c[v]@[u]
    &&& forall|u: int| 0 <= u < n ==> !(#[trigger] c[u])@[u]
}

/// Označí konflikt dvou různých jednotek (v obou směrech).
fn oznac(c: &mut Vec<Vec<bool>>, a: usize, b: usize)
    requires
        konflikty_dobre(old(c)@, old(c)@.len() as int),
        a < old(c)@.len(),
        b < old(c)@.len(),
        a != b,
    ensures
        konflikty_dobre(final(c)@, old(c)@.len() as int),
        final(c)@.len() == old(c)@.len(),
        forall|u: int, v: int|
            0 <= u < old(c)@.len() && 0 <= v < old(c)@.len() ==> #[trigger] final(c)@[u]@[v] == (old(c)@[u]@[v] || (u == a && v == b) || (u == b
                && v == a)),
{
    let ghost n = c@.len() as int;
    let ghost c0 = c@;
    c[a].set(b, true);
    let ghost c1 = c@;
    c[b].set(a, true);
    proof {
        assert forall|u: int| 0 <= u < n implies (#[trigger] c@[u])@.len() == n by {
            if u != a && u != b {
                assert(c@[u] == c0[u]);
            }
        }
        assert forall|u: int, v: int| 0 <= u < n && 0 <= v < n implies #[trigger] c@[u]@[v] == c@[v]@[u] by {
            assert(c0[u]@[v] == c0[v]@[u]);
        }
        assert forall|u: int| 0 <= u < n implies !(#[trigger] c@[u])@[u] by {
            assert(!c0[u]@[u]);
        }
    }
}

/// Lekce `ls[x]` a `ls[y]` skupiny (`x < y`) se potkávají v některém týdnu.
pub open spec fn dvojice_skupiny(vs: Vstup, ls: Seq<usize>, x: int, y: int) -> bool {
    0 <= x < y < ls.len() && crate::solver::prekryv_spec(vs.lekce@[ls[x] as int].tyden, vs.lekce@[ls[y] as int].tyden)
}

/// Dvojice `(x, y)` skupiny dělá konflikt jednotek `u` a `v` (různých).
pub open spec fn konflikt_dvojice(vs: Vstup, ls: Seq<usize>, x: int, y: int, u: int, v: int) -> bool {
    let ja = vs.lekce@[ls[x] as int].jednotka as int;
    let jb = vs.lekce@[ls[y] as int].jednotka as int;
    dvojice_skupiny(vs, ls, x, y) && ja != jb && ((u == ja && v == jb) || (u == jb && v == ja))
}

/// Dvojice `(x, y)` skupiny jsou dvě různé lekce téže jednotky s dvojicí indexů `p` (menší napřed).
pub open spec fn vnitrni_dvojice(vs: Vstup, ls: Seq<usize>, x: int, y: int, p: (usize, usize)) -> bool {
    let a = ls[x];
    let b = ls[y];
    &&& dvojice_skupiny(vs, ls, x, y)
    &&& a != b
    &&& vs.lekce@[a as int].jednotka == vs.lekce@[b as int].jednotka
    &&& p == (if a < b { (a, b) } else { (b, a) })
}

/// Dvojice `(x2, y2)` je zpracovaná před dvojicí `(x, y)`.
pub open spec fn pred_dvojici(x2: int, y2: int, x: int, y: int) -> bool {
    x2 < x || (x2 == x && y2 < y)
}

/// Některá dvojice zpracovaná před `(x, y)` dělá konflikt jednotek `u` a `v`.
pub open spec fn konflikt_do(vs: Vstup, ls: Seq<usize>, x: int, y: int, u: int, v: int) -> bool {
    exists|x2: int, y2: int| pred_dvojici(x2, y2, x, y) && #[trigger] konflikt_dvojice(vs, ls, x2, y2, u, v)
}

/// Některá dvojice zpracovaná před `(x, y)` je vnitřní dvojicí `p`.
pub open spec fn vnitrni_do(vs: Vstup, ls: Seq<usize>, x: int, y: int, p: (usize, usize)) -> bool {
    exists|x2: int, y2: int| pred_dvojici(x2, y2, x, y) && #[trigger] vnitrni_dvojice(vs, ls, x2, y2, p)
}

proof fn lemma_do_krok(vs: Vstup, ls: Seq<usize>, x: int, y: int, u: int, v: int, p: (usize, usize))
    ensures
        konflikt_do(vs, ls, x, y + 1, u, v) == (konflikt_do(vs, ls, x, y, u, v) || konflikt_dvojice(vs, ls, x, y, u, v)),
        vnitrni_do(vs, ls, x, y + 1, p) == (vnitrni_do(vs, ls, x, y, p) || vnitrni_dvojice(vs, ls, x, y, p)),
{
    if konflikt_do(vs, ls, x, y + 1, u, v) {
        let (x2, y2) = choose|x2: int, y2: int| pred_dvojici(x2, y2, x, y + 1) && #[trigger] konflikt_dvojice(vs, ls, x2, y2, u, v);
        if !(x2 == x && y2 == y) {
            assert(pred_dvojici(x2, y2, x, y));
        }
    }
    if konflikt_do(vs, ls, x, y, u, v) {
        let (x2, y2) = choose|x2: int, y2: int| pred_dvojici(x2, y2, x, y) && #[trigger] konflikt_dvojice(vs, ls, x2, y2, u, v);
        assert(pred_dvojici(x2, y2, x, y + 1));
    }
    if konflikt_dvojice(vs, ls, x, y, u, v) {
        assert(pred_dvojici(x, y, x, y + 1));
    }
    if vnitrni_do(vs, ls, x, y + 1, p) {
        let (x2, y2) = choose|x2: int, y2: int| pred_dvojici(x2, y2, x, y + 1) && #[trigger] vnitrni_dvojice(vs, ls, x2, y2, p);
        if !(x2 == x && y2 == y) {
            assert(pred_dvojici(x2, y2, x, y));
        }
    }
    if vnitrni_do(vs, ls, x, y, p) {
        let (x2, y2) = choose|x2: int, y2: int| pred_dvojici(x2, y2, x, y) && #[trigger] vnitrni_dvojice(vs, ls, x2, y2, p);
        assert(pred_dvojici(x2, y2, x, y + 1));
    }
    if vnitrni_dvojice(vs, ls, x, y, p) {
        assert(pred_dvojici(x, y, x, y + 1));
    }
}

proof fn lemma_do_radek(vs: Vstup, ls: Seq<usize>, x: int, u: int, v: int, p: (usize, usize))
    requires
        0 <= x,
    ensures
        konflikt_do(vs, ls, x, ls.len() as int, u, v) == konflikt_do(vs, ls, x + 1, x + 2, u, v),
        vnitrni_do(vs, ls, x, ls.len() as int, p) == vnitrni_do(vs, ls, x + 1, x + 2, p),
        konflikt_do(vs, ls, 0, 1, u, v) == false,
        vnitrni_do(vs, ls, 0, 1, p) == false,
        konflikt_do(vs, ls, ls.len() as int, ls.len() as int + 1, u, v) == konflikt_ve_skupine(vs, ls, u, v),
        vnitrni_do(vs, ls, ls.len() as int, ls.len() as int + 1, p) == vnitrni_ve_skupine(vs, ls, p),
{
    if konflikt_do(vs, ls, x, ls.len() as int, u, v) {
        let (x2, y2) = choose|x2: int, y2: int| pred_dvojici(x2, y2, x, ls.len() as int) && #[trigger] konflikt_dvojice(vs, ls, x2, y2, u, v);
        assert(pred_dvojici(x2, y2, x + 1, x + 2));
    }
    if konflikt_do(vs, ls, x + 1, x + 2, u, v) {
        let (x2, y2) = choose|x2: int, y2: int| pred_dvojici(x2, y2, x + 1, x + 2) && #[trigger] konflikt_dvojice(vs, ls, x2, y2, u, v);
        assert(pred_dvojici(x2, y2, x, ls.len() as int));
    }
    if vnitrni_do(vs, ls, x, ls.len() as int, p) {
        let (x2, y2) = choose|x2: int, y2: int| pred_dvojici(x2, y2, x, ls.len() as int) && #[trigger] vnitrni_dvojice(vs, ls, x2, y2, p);
        assert(pred_dvojici(x2, y2, x + 1, x + 2));
    }
    if vnitrni_do(vs, ls, x + 1, x + 2, p) {
        let (x2, y2) = choose|x2: int, y2: int| pred_dvojici(x2, y2, x + 1, x + 2) && #[trigger] vnitrni_dvojice(vs, ls, x2, y2, p);
        assert(pred_dvojici(x2, y2, x, ls.len() as int));
    }
    if konflikt_ve_skupine(vs, ls, u, v) {
        let (x2, y2) = choose|x2: int, y2: int| #[trigger] konflikt_dvojice(vs, ls, x2, y2, u, v);
        assert(pred_dvojici(x2, y2, ls.len() as int, ls.len() as int + 1));
    }
    if vnitrni_ve_skupine(vs, ls, p) {
        let (x2, y2) = choose|x2: int, y2: int| #[trigger] vnitrni_dvojice(vs, ls, x2, y2, p);
        assert(pred_dvojici(x2, y2, ls.len() as int, ls.len() as int + 1));
    }
}

/// Některá dvojice skupiny dělá konflikt jednotek `u` a `v`.
pub open spec fn konflikt_ve_skupine(vs: Vstup, ls: Seq<usize>, u: int, v: int) -> bool {
    exists|x: int, y: int| #[trigger] konflikt_dvojice(vs, ls, x, y, u, v)
}

/// Některá dvojice skupiny je vnitřní dvojicí `p`.
pub open spec fn vnitrni_ve_skupine(vs: Vstup, ls: Seq<usize>, p: (usize, usize)) -> bool {
    exists|x: int, y: int| #[trigger] vnitrni_dvojice(vs, ls, x, y, p)
}

/// Konflikty lekcí ve skupině (lekce téhož učitele nebo žáka): lekce různých jednotek
/// ve stejném týdnu jsou v konfliktu; dvojice ve stejné jednotce se zapíše jako vnitřní kolize.
fn konflikty_skupiny(vs: &Vstup, ls: &Vec<usize>, c: &mut Vec<Vec<bool>>, strukt: &mut Vec<(usize, usize)>)
    requires
        jednotky_platne(vs.lekce@, vs.jednotky@),
        konflikty_dobre(old(c)@, vs.jednotky@.len() as int),
        forall|k: int| 0 <= k < ls@.len() ==> (#[trigger] ls@[k]) < vs.lekce@.len(),
        forall|k: int| 0 <= k < old(strukt)@.len() ==> (#[trigger] old(strukt)@[k]).0 < old(strukt)@[k].1,
    ensures
        konflikty_dobre(final(c)@, vs.jednotky@.len() as int),
        forall|k: int| 0 <= k < final(strukt)@.len() ==> (#[trigger] final(strukt)@[k]).0 < final(strukt)@[k].1,
        forall|u: int, v: int|
            0 <= u < vs.jednotky@.len() && 0 <= v < vs.jednotky@.len() ==> #[trigger] final(c)@[u]@[v] == (old(c)@[u]@[v]
                || konflikt_ve_skupine(*vs, ls@, u, v)),
        forall|p: (usize, usize)| #[trigger] final(strukt)@.contains(p) <==> (old(strukt)@.contains(p) || vnitrni_ve_skupine(*vs, ls@, p)),
{
    let n = vs.jednotky.len();
    let ghost c0 = c@;
    let ghost s0 = strukt@;
    let mut x: usize = 0;
    proof {
        assert forall|u: int, v: int| 0 <= u < n && 0 <= v < n implies #[trigger] c@[u]@[v] == (c0[u]@[v] || konflikt_do(*vs, ls@, 0, 1, u, v)) by {
            lemma_do_radek(*vs, ls@, 0, u, v, (0usize, 0usize));
        }
        assert forall|p: (usize, usize)| #[trigger] strukt@.contains(p) <==> (s0.contains(p) || vnitrni_do(*vs, ls@, 0, 1, p)) by {
            lemma_do_radek(*vs, ls@, 0, 0, 0, p);
        }
    }
    while x < ls.len()
        invariant
            x <= ls@.len(),
            n == vs.jednotky@.len(),
            jednotky_platne(vs.lekce@, vs.jednotky@),
            konflikty_dobre(c@, n as int),
            forall|k: int| 0 <= k < ls@.len() ==> (#[trigger] ls@[k]) < vs.lekce@.len(),
            forall|k: int| 0 <= k < strukt@.len() ==> (#[trigger] strukt@[k]).0 < strukt@[k].1,
            c0.len() == n,
            forall|u: int, v: int| 0 <= u < n && 0 <= v < n ==> #[trigger] c@[u]@[v] == (c0[u]@[v] || konflikt_do(*vs, ls@, x as int, x + 1, u, v)),
            forall|p: (usize, usize)| #[trigger] strukt@.contains(p) <==> (s0.contains(p) || vnitrni_do(*vs, ls@, x as int, x + 1, p)),
        decreases ls@.len() - x,
    {
        let mut y: usize = x + 1;
        while y < ls.len()
            invariant
                x < y <= ls@.len(),
                n == vs.jednotky@.len(),
                jednotky_platne(vs.lekce@, vs.jednotky@),
                konflikty_dobre(c@, n as int),
                forall|k: int| 0 <= k < ls@.len() ==> (#[trigger] ls@[k]) < vs.lekce@.len(),
                forall|k: int| 0 <= k < strukt@.len() ==> (#[trigger] strukt@[k]).0 < strukt@[k].1,
                c0.len() == n,
                forall|u: int, v: int| 0 <= u < n && 0 <= v < n ==> #[trigger] c@[u]@[v] == (c0[u]@[v] || konflikt_do(*vs, ls@, x as int, y as int, u, v)),
                forall|p: (usize, usize)| #[trigger] strukt@.contains(p) <==> (s0.contains(p) || vnitrni_do(*vs, ls@, x as int, y as int, p)),
            decreases ls@.len() - y,
        {
            let ghost cy = c@;
            let ghost sy = strukt@;
            let a = ls[x];
            let b = ls[y];
            let la = &vs.lekce[a];
            let lb = &vs.lekce[b];
            if la.tyden.prekryv(lb.tyden) {
                let ua = la.jednotka;
                let ub = lb.jednotka;
                if ua == ub {
                    if a != b {
                        let par = if a < b { (a, b) } else { (b, a) };
                        let mut je = false;
                        let mut k: usize = 0;
                        while k < strukt.len()
                            invariant
                                k <= strukt@.len(),
                                je == strukt@.take(k as int).contains(par),
                            decreases strukt@.len() - k,
                        {
                            proof {
                                assert(strukt@.take(k + 1) =~= strukt@.take(k as int).push(strukt@[k as int]));
                                crate::hledani::lemma_contains_push(strukt@.take(k as int), strukt@[k as int], par);
                            }
                            if strukt[k].0 == par.0 && strukt[k].1 == par.1 {
                                je = true;
                            }
                            k = k + 1;
                        }
                        proof {
                            assert(strukt@.take(strukt@.len() as int) =~= strukt@);
                        }
                        if !je {
                            strukt.push(par);
                            proof {
                                assert forall|pp: (usize, usize)| #[trigger] strukt@.contains(pp) <==> (sy.contains(pp) || pp == par) by {
                                    crate::hledani::lemma_contains_push(sy, par, pp);
                                }
                            }
                        }
                    }
                } else {
                    oznac(c, ua, ub);
                }
            }
            proof {
                assert forall|u: int, v: int| 0 <= u < n && 0 <= v < n implies #[trigger] c@[u]@[v] == (c0[u]@[v] || konflikt_do(*vs, ls@, x as int, y + 1, u, v)) by {
                    lemma_do_krok(*vs, ls@, x as int, y as int, u, v, (0usize, 0usize));
                }
                assert forall|p: (usize, usize)| #[trigger] strukt@.contains(p) <==> (s0.contains(p) || vnitrni_do(*vs, ls@, x as int, y + 1, p)) by {
                    lemma_do_krok(*vs, ls@, x as int, y as int, 0, 0, p);
                }
            }
            y = y + 1;
        }
        proof {
            assert forall|u: int, v: int| 0 <= u < n && 0 <= v < n implies #[trigger] c@[u]@[v] == (c0[u]@[v] || konflikt_do(*vs, ls@, x + 1, x + 2, u, v)) by {
                lemma_do_radek(*vs, ls@, x as int, u, v, (0usize, 0usize));
            }
            assert forall|p: (usize, usize)| #[trigger] strukt@.contains(p) <==> (s0.contains(p) || vnitrni_do(*vs, ls@, x + 1, x + 2, p)) by {
                lemma_do_radek(*vs, ls@, x as int, 0, 0, p);
            }
        }
        x = x + 1;
    }
    proof {
        assert forall|u: int, v: int| 0 <= u < n && 0 <= v < n implies #[trigger] c@[u]@[v] == (c0[u]@[v] || konflikt_ve_skupine(*vs, ls@, u, v)) by {
            lemma_do_radek(*vs, ls@, x as int, u, v, (0usize, 0usize));
        }
        assert forall|p: (usize, usize)| #[trigger] strukt@.contains(p) <==> (s0.contains(p) || vnitrni_ve_skupine(*vs, ls@, p)) by {
            lemma_do_radek(*vs, ls@, x as int, 0, 0, p);
        }
    }
}

/// Konflikty jednotek (sdílený učitel nebo žák ve stejném týdnu) a počet vnitřních kolizí
/// jednotek, které se hlásí ve varováních.
/// Lekce `a < b` mají společného učitele nebo žáka, potkávají se v některém týdnu a patří
/// do různých jednotek `u` a `v` (v libovolném pořadí).
pub open spec fn konflikt_lekci(vs: Vstup, a: int, b: int, u: int, v: int) -> bool {
    let la = vs.lekce@[a];
    let lb = vs.lekce@[b];
    &&& 0 <= a < b < vs.lekce@.len()
    &&& crate::solver::prekryv_spec(la.tyden, lb.tyden)
    &&& la.jednotka != lb.jednotka
    &&& ((u == la.jednotka && v == lb.jednotka) || (u == lb.jednotka && v == la.jednotka))
    &&& (la.ucitel@ == lb.ucitel@ || exists|s: u32| la.zaci@.contains(s) && #[trigger] lb.zaci@.contains(s))
}

/// Jednotky `u` a `v` jsou v konfliktu: některé jejich lekce mají společného učitele nebo
/// žáka a potkávají se v týdnu.
pub open spec fn konflikt_jednotek(vs: Vstup, u: int, v: int) -> bool {
    exists|a: int, b: int| #[trigger] konflikt_lekci(vs, a, b, u, v)
}

/// Indexy `0..n`.
pub open spec fn indexy(n: nat) -> Seq<usize> {
    Seq::new(n, |i: int| i as usize)
}

/// Indexy prvních `n` lekcí s vlastností `p` jdou ostře vzestupně a jsou právě ty s `p`.
proof fn lemma_filtr_indexu(n: nat, p: spec_fn(usize) -> bool)
    requires
        n <= usize::MAX,
    ensures
        forall|x: int, y: int|
            0 <= x < y < indexy(n).filter(p).len() ==> #[trigger] indexy(n).filter(p)[x]
                < #[trigger] indexy(n).filter(p)[y],
        forall|i: usize| #[trigger] indexy(n).filter(p).contains(i) <==> (i < n && p(i)),
    decreases n,
{
    broadcast use vstd::seq_lib::group_filter_ensures;

    let s = indexy(n);
    if n > 0 {
        let m = (n - 1) as nat;
        lemma_filtr_indexu(m, p);
        let s0 = indexy(m);
        assert(s =~= s0.push(m as usize));
        s0.lemma_filter_push(m as usize, p);
        assert forall|x: int, y: int| 0 <= x < y < s.filter(p).len() implies #[trigger] s.filter(p)[x] < #[trigger] s.filter(p)[y] by {
            if y == s0.filter(p).len() {
                assert(s0.filter(p).contains(s0.filter(p)[x]));
                s0.lemma_filter_contains_rev(p, s0.filter(p)[x]);
            }
        }
        assert forall|i: usize| #[trigger] s.filter(p).contains(i) <==> (i < n && p(i)) by {
            if s.filter(p).contains(i) {
                s.lemma_filter_contains_rev(p, i);
                let k = choose|k: int| 0 <= k < s.filter(p).len() && s.filter(p)[k] == i;
            }
            if i < n && p(i) {
                assert(s[i as int] == i);
                s.lemma_filter_contains(p, i as int);
            }
        }
    } else {
        assert(s.filter(p) =~= Seq::<usize>::empty()) by {
            assert(s =~= Seq::<usize>::empty());
            reveal(Seq::filter);
        }
    }
}

/// V ostře rostoucí posloupnosti jsou `a < b` na pozicích `x < y`.
proof fn lemma_pozice(ls: Seq<usize>, a: usize, b: usize) -> (r: (int, int))
    requires
        forall|x: int, y: int| 0 <= x < y < ls.len() ==> #[trigger] ls[x] < #[trigger] ls[y],
        ls.contains(a),
        ls.contains(b),
        a < b,
    ensures
        0 <= r.0 < r.1 < ls.len(),
        ls[r.0] == a,
        ls[r.1] == b,
{
    let x = choose|x: int| 0 <= x < ls.len() && ls[x] == a;
    let y = choose|y: int| 0 <= y < ls.len() && ls[y] == b;
    if y <= x {
        if y < x {
            assert(ls[y] < ls[x]);
        }
    }
    (x, y)
}

/// Konflikt jednotek ze skupin učitelů a žáků je právě konflikt jejich lekcí.
proof fn lemma_konflikty_vyznam(vs: Vstup, uc: Seq<u32>, n_teach: int, zl: Seq<Vec<usize>>, ids: Seq<u32>, u: int, v: int)
    requires
        vs.lekce@.len() <= usize::MAX,
        uc.len() == vs.lekce@.len(),
        forall|i: int| 0 <= i < uc.len() ==> #[trigger] uc[i] < n_teach,
        forall|a: int, b: int| 0 <= a < uc.len() && 0 <= b < uc.len() ==> (#[trigger] uc[a] == #[trigger] uc[b] <==> vs.lekce@[a].ucitel@ == vs.lekce@[b].ucitel@),
        forall|s: u32| #[trigger] ids.contains(s) <==> zak_v_lekcich(vs.lekce@, s, vs.lekce@.len() as int),
        zl.len() == ids.len(),
        forall|z: int| 0 <= z < zl.len() ==> (#[trigger] zl[z])@ == lekce_zaka(vs.lekce@, ids[z]),
    ensures
        (konflikt_ucitelu_do(vs, uc, n_teach, u, v) || konflikt_zaku_do(vs, zl, zl.len() as int, u, v)) == konflikt_jednotek(vs, u, v),
{
    let n = vs.lekce@.len();
    if konflikt_ucitelu_do(vs, uc, n_teach, u, v) {
        let t = choose|t: int| 0 <= t < n_teach && #[trigger] konflikt_ve_skupine(vs, skupina_ucitele(uc, t), u, v);
        let ls = skupina_ucitele(uc, t);
        lemma_filtr_indexu(n, uci_lekce(uc, t));
        let (x, y) = choose|x: int, y: int| #[trigger] konflikt_dvojice(vs, ls, x, y, u, v);
        assert(ls.contains(ls[x]) && ls.contains(ls[y]));
        assert(ls[x] < ls[y]);
        assert(konflikt_lekci(vs, ls[x] as int, ls[y] as int, u, v));
    }
    if konflikt_zaku_do(vs, zl, zl.len() as int, u, v) {
        let z = choose|z: int| 0 <= z < zl.len() && #[trigger] konflikt_ve_skupine(vs, zl[z]@, u, v);
        let ls = zl[z]@;
        let sid = ids[z];
        lemma_filtr_indexu(n, |i: usize| vs.lekce@[i as int].zaci@.contains(sid));
        assert(ls == lekce_zaka(vs.lekce@, sid));
        let (x, y) = choose|x: int, y: int| #[trigger] konflikt_dvojice(vs, ls, x, y, u, v);
        assert(ls.contains(ls[x]) && ls.contains(ls[y]));
        assert(ls[x] < ls[y]);
        assert(vs.lekce@[ls[y] as int].zaci@.contains(sid));
        assert(konflikt_lekci(vs, ls[x] as int, ls[y] as int, u, v));
    }
    if konflikt_jednotek(vs, u, v) {
        let (a, b) = choose|a: int, b: int| #[trigger] konflikt_lekci(vs, a, b, u, v);
        let la = vs.lekce@[a];
        let lb = vs.lekce@[b];
        if la.ucitel@ == lb.ucitel@ {
            let t = uc[a] as int;
            let ls = skupina_ucitele(uc, t);
            lemma_filtr_indexu(n, uci_lekce(uc, t));
            assert(uc[b] == uc[a]);
            assert(ls.contains(a as usize) && ls.contains(b as usize));
            let (x, y) = lemma_pozice(ls, a as usize, b as usize);
            assert(konflikt_dvojice(vs, ls, x, y, u, v));
            assert(konflikt_ve_skupine(vs, ls, u, v));
            assert(konflikt_ucitelu_do(vs, uc, n_teach, u, v));
        } else {
            let sid = choose|s: u32| la.zaci@.contains(s) && #[trigger] lb.zaci@.contains(s);
            assert(zak_v_lekcich(vs.lekce@, sid, n as int));
            assert(ids.contains(sid));
            let z = choose|z: int| 0 <= z < ids.len() && ids[z] == sid;
            let ls = zl[z]@;
            lemma_filtr_indexu(n, |i: usize| vs.lekce@[i as int].zaci@.contains(sid));
            assert(ls == lekce_zaka(vs.lekce@, sid));
            assert(ls.contains(a as usize) && ls.contains(b as usize));
            let (x, y) = lemma_pozice(ls, a as usize, b as usize);
            assert(konflikt_dvojice(vs, ls, x, y, u, v));
            assert(konflikt_ve_skupine(vs, ls, u, v));
            assert(konflikt_zaku_do(vs, zl, zl.len() as int, u, v));
        }
    }
}

/// Lekce učitele s indexem `t` (vzestupně).
pub open spec fn skupina_ucitele(uc: Seq<u32>, t: int) -> Seq<usize> {
    indexy(uc.len()).filter(uci_lekce(uc, t))
}

/// Lekce s indexem `i` má učitele `t`.
pub open spec fn uci_lekce(uc: Seq<u32>, t: int) -> spec_fn(usize) -> bool {
    |i: usize| uc[i as int] == t
}

/// Některý z prvních `tt` učitelů dělá konflikt jednotek `u` a `v`.
pub open spec fn konflikt_ucitelu_do(vs: Vstup, uc: Seq<u32>, tt: int, u: int, v: int) -> bool {
    exists|t: int| 0 <= t < tt && #[trigger] konflikt_ve_skupine(vs, skupina_ucitele(uc, t), u, v)
}

/// Některá z prvních `zz` skupin žáků dělá konflikt jednotek `u` a `v`.
pub open spec fn konflikt_zaku_do(vs: Vstup, zl: Seq<Vec<usize>>, zz: int, u: int, v: int) -> bool {
    exists|z: int| 0 <= z < zz && #[trigger] konflikt_ve_skupine(vs, zl[z]@, u, v)
}

fn konflikty(vs: &Vstup, zak_lekce: &Vec<Vec<usize>>, uc_lekce: &Vec<u32>, n_teach: usize, varovani: &mut Vec<String>) -> (r: (
    Vec<Vec<bool>>,
    i64,
))
    requires
        jednotky_platne(vs.lekce@, vs.jednotky@),
        uc_lekce@.len() == vs.lekce@.len(),
        forall|z: int, k: int| 0 <= z < zak_lekce@.len() && 0 <= k < zak_lekce@[z]@.len() ==> (#[trigger] zak_lekce@[z]@[k]) < vs.lekce@.len(),
    ensures
        crate::solver::zacina_na(old(varovani)@, final(varovani)@),
        konflikty_dobre(r.0@, vs.jednotky@.len() as int),
        r.1 >= 0,
        forall|u: int, v: int|
            0 <= u < vs.jednotky@.len() && 0 <= v < vs.jednotky@.len() ==> #[trigger] r.0@[u]@[v] == (konflikt_ucitelu_do(
                *vs,
                uc_lekce@,
                n_teach as int,
                u,
                v,
            ) || konflikt_zaku_do(*vs, zak_lekce@, zak_lekce@.len() as int, u, v)),
{
    let n = vs.jednotky.len();
    let mut c: Vec<Vec<bool>> = Vec::new();
    let mut u: usize = 0;
    while u < n
        invariant
        crate::solver::zacina_na(old(varovani)@, varovani@),
            u <= n,
            c@.len() == u,
            forall|x: int| 0 <= x < u ==> (#[trigger] c@[x])@.len() == n,
            forall|x: int, y: int| 0 <= x < u && 0 <= y < n ==> !#[trigger] c@[x]@[y],
        decreases n - u,
    {
        let mut radek: Vec<bool> = Vec::new();
        let mut v: usize = 0;
        while v < n
            invariant
            crate::solver::zacina_na(old(varovani)@, varovani@),
                v <= n,
                radek@.len() == v,
                forall|y: int| 0 <= y < v ==> !#[trigger] radek@[y],
            decreases n - v,
        {
            radek.push(false);
            v = v + 1;
        }
        c.push(radek);
        u = u + 1;
    }
    let mut strukt: Vec<(usize, usize)> = Vec::new();
    let mut t: usize = 0;
    while t < n_teach
        invariant
        crate::solver::zacina_na(old(varovani)@, varovani@),
            n == vs.jednotky@.len(),
            jednotky_platne(vs.lekce@, vs.jednotky@),
            konflikty_dobre(c@, n as int),
            uc_lekce@.len() == vs.lekce@.len(),
            forall|k: int| 0 <= k < strukt@.len() ==> (#[trigger] strukt@[k]).0 < strukt@[k].1,
            t <= n_teach,
            forall|u: int, v: int| 0 <= u < n && 0 <= v < n ==> #[trigger] c@[u]@[v] == konflikt_ucitelu_do(*vs, uc_lekce@, t as int, u, v),
        decreases n_teach - t,
    {
        let ghost vse = Seq::new(uc_lekce@.len(), |i: int| i as usize);
        let ghost pt = uci_lekce(uc_lekce@, t as int);
        let mut ls: Vec<usize> = Vec::new();
        let mut i: usize = 0;
        while i < uc_lekce.len()
            invariant
            crate::solver::zacina_na(old(varovani)@, varovani@),
                i <= uc_lekce@.len(),
                uc_lekce@.len() == vs.lekce@.len(),
                forall|k: int| 0 <= k < ls@.len() ==> (#[trigger] ls@[k]) < vs.lekce@.len(),
                vse == Seq::new(uc_lekce@.len(), |i: int| i as usize),
                pt == uci_lekce(uc_lekce@, t as int),
                ls@ == vse.take(i as int).filter(pt),
            decreases uc_lekce@.len() - i,
        {
            proof {
                assert(vse.take(i + 1) =~= vse.take(i as int).push(i));
                vse.take(i as int).lemma_filter_push(i, pt);
            }
            if uc_lekce[i] as usize == t {
                ls.push(i);
            }
            i = i + 1;
        }
        proof {
            assert(vse.take(uc_lekce@.len() as int) =~= vse);
            assert(ls@ == skupina_ucitele(uc_lekce@, t as int));
        }
        let ghost c1 = c@;
        konflikty_skupiny(vs, &ls, &mut c, &mut strukt);
        proof {
            assert forall|u: int, v: int| 0 <= u < n && 0 <= v < n implies #[trigger] c@[u]@[v] == konflikt_ucitelu_do(*vs, uc_lekce@, t + 1, u, v) by {
                assert(c@[u]@[v] == (c1[u]@[v] || konflikt_ve_skupine(*vs, ls@, u, v)));
                if konflikt_ucitelu_do(*vs, uc_lekce@, t + 1, u, v) {
                    let t2 = choose|t2: int| 0 <= t2 < t + 1 && #[trigger] konflikt_ve_skupine(*vs, skupina_ucitele(uc_lekce@, t2), u, v);
                    if t2 < t {
                        assert(konflikt_ucitelu_do(*vs, uc_lekce@, t as int, u, v));
                    }
                }
                if konflikt_ucitelu_do(*vs, uc_lekce@, t as int, u, v) {
                    let t2 = choose|t2: int| 0 <= t2 < t && #[trigger] konflikt_ve_skupine(*vs, skupina_ucitele(uc_lekce@, t2), u, v);
                    assert(konflikt_ucitelu_do(*vs, uc_lekce@, t + 1, u, v));
                }
                if konflikt_ve_skupine(*vs, ls@, u, v) {
                    assert(konflikt_ve_skupine(*vs, skupina_ucitele(uc_lekce@, t as int), u, v));
                }
            }
        }
        t = t + 1;
    }
    let mut z: usize = 0;
    while z < zak_lekce.len()
        invariant
        crate::solver::zacina_na(old(varovani)@, varovani@),
            n == vs.jednotky@.len(),
            jednotky_platne(vs.lekce@, vs.jednotky@),
            konflikty_dobre(c@, n as int),
            forall|zz: int, k: int| 0 <= zz < zak_lekce@.len() && 0 <= k < zak_lekce@[zz]@.len() ==> (#[trigger] zak_lekce@[zz]@[k]) < vs.lekce@.len(),
            forall|k: int| 0 <= k < strukt@.len() ==> (#[trigger] strukt@[k]).0 < strukt@[k].1,
            z <= zak_lekce@.len(),
            forall|u: int, v: int|
                0 <= u < n && 0 <= v < n ==> #[trigger] c@[u]@[v] == (konflikt_ucitelu_do(*vs, uc_lekce@, n_teach as int, u, v)
                    || konflikt_zaku_do(*vs, zak_lekce@, z as int, u, v)),
        decreases zak_lekce@.len() - z,
    {
        let ghost c1 = c@;
        konflikty_skupiny(vs, &zak_lekce[z], &mut c, &mut strukt);
        proof {
            assert forall|u: int, v: int|
                0 <= u < n && 0 <= v < n implies #[trigger] c@[u]@[v] == (konflikt_ucitelu_do(*vs, uc_lekce@, n_teach as int, u, v)
                    || konflikt_zaku_do(*vs, zak_lekce@, z + 1, u, v)) by {
                assert(c@[u]@[v] == (c1[u]@[v] || konflikt_ve_skupine(*vs, zak_lekce@[z as int]@, u, v)));
                if konflikt_zaku_do(*vs, zak_lekce@, z + 1, u, v) {
                    let z2 = choose|z2: int| 0 <= z2 < z + 1 && #[trigger] konflikt_ve_skupine(*vs, zak_lekce@[z2]@, u, v);
                    if z2 < z {
                        assert(konflikt_zaku_do(*vs, zak_lekce@, z as int, u, v));
                    }
                }
                if konflikt_zaku_do(*vs, zak_lekce@, z as int, u, v) {
                    let z2 = choose|z2: int| 0 <= z2 < z && #[trigger] konflikt_ve_skupine(*vs, zak_lekce@[z2]@, u, v);
                    assert(konflikt_zaku_do(*vs, zak_lekce@, z + 1, u, v));
                }
            }
        }
        z = z + 1;
    }
    let mut k: usize = 0;
    while k < strukt.len()
        invariant
        crate::solver::zacina_na(old(varovani)@, varovani@),
            k <= strukt@.len(),
            forall|x: int| 0 <= x < strukt@.len() ==> (#[trigger] strukt@[x]).0 < strukt@[x].1,
        decreases strukt@.len() - k,
    {
        let (a, b) = strukt[k];
        if b < vs.lekce.len() {
            let pa = crate::solver::popis_lekce(&vs.lekce[a]);
            let pb = crate::solver::popis_lekce(&vs.lekce[b]);
            varovani.push(crate::text::spoj(&["Vnitřní kolize jednotky: ", pa.as_str(), " × ", pb.as_str(), " (stejný učitel/žák ve stejném týdnu)."]));
        }
        k = k + 1;
    }
    let pocet: i64 = if strukt.len() as u64 > i64::MAX as u64 { i64::MAX } else { strukt.len() as i64 };
    (c, pocet)
}

/// Statická cena umístění: jednotka se seminářem, který má být dopoledne, platí za každou
/// svou odpolední hodinu váhu krát počet žáků.
fn ceny_umisteni(vs: &Vstup, ulen: &Vec<u8>, usz: &Vec<i64>, odpo_od: usize, vaha: u32) -> (r: Vec<Vec<i64>>)
    requires
        jednotky_platne(vs.lekce@, vs.jednotky@),
        ulen@.len() == vs.jednotky@.len(),
        usz@.len() == vs.jednotky@.len(),
        forall|u: int| 0 <= u < ulen@.len() ==> 1 <= #[trigger] ulen@[u] <= 2,
    ensures
        r@.len() == vs.jednotky@.len(),
        forall|u: int| 0 <= u < r@.len() ==> (#[trigger] r@[u])@.len() == N_SLOTU,
{
    let mut r: Vec<Vec<i64>> = Vec::new();
    let mut u: usize = 0;
    while u < vs.jednotky.len()
        invariant
            u <= vs.jednotky@.len(),
            jednotky_platne(vs.lekce@, vs.jednotky@),
            ulen@.len() == vs.jednotky@.len(),
            usz@.len() == vs.jednotky@.len(),
            forall|x: int| 0 <= x < ulen@.len() ==> 1 <= #[trigger] ulen@[x] <= 2,
            r@.len() == u,
            forall|x: int| 0 <= x < u ==> (#[trigger] r@[x])@.len() == N_SLOTU,
        decreases vs.jednotky@.len() - u,
    {
        let j = &vs.jednotky[u];
        let mut dopoledne = false;
        let mut q: usize = 0;
        while q < j.len()
            invariant
                q <= j@.len(),
                *j == vs.jednotky@[u as int],
                u < vs.jednotky@.len(),
                jednotky_platne(vs.lekce@, vs.jednotky@),
            decreases j@.len() - q,
        {
            proof {
                assert(j@[q as int] < vs.lekce@.len());
            }
            if vs.lekce[j[q]].dopoledne {
                dopoledne = true;
            }
            q = q + 1;
        }
        let mut radek: Vec<i64> = Vec::new();
        let mut s: usize = 0;
        while s < N_SLOTU
            invariant
                s <= N_SLOTU,
                radek@.len() == s,
                u < ulen@.len(),
                u < usz@.len(),
                1 <= ulen@[u as int] <= 2,
            decreases N_SLOTU - s,
        {
            let mut cena: i64 = 0;
            if dopoledne {
                let k = s % SLOTU;
                let konec = k + ulen[u] as usize;
                let mut odpo: i64 = 0;
                let mut x = k;
                while x < konec
                    invariant
                        k <= x <= konec,
                        konec <= k + 2,
                        0 <= odpo <= x - k,
                    decreases konec - x,
                {
                    if x >= odpo_od {
                        odpo = odpo + 1;
                    }
                    x = x + 1;
                }
                cena = s_mul(s_mul(vaha as i64, odpo), usz[u]);
            }
            radek.push(cena);
            s = s + 1;
        }
        r.push(radek);
        u = u + 1;
    }
    r
}

/// Informace o profilech: počet žáků, limity P1 třídy a váha odpolední hodiny (nižší
/// gymnázium do efektivního 5. ročníku, jinak vyšší).
fn info_profilu(skola: &Skola, prof_trida: &Vec<String>, prof_size: &Vec<i64>, limity: &Mapa<Omezeni>) -> (r: Vec<ProfInfo>)
    requires
        crate::data::tridy_platne(skola.tridy@),
        prof_trida@.len() == prof_size@.len(),
        limity.dobre(),
    ensures
        r@.len() == prof_trida@.len(),
        forall|p: int| 0 <= p < r@.len() ==> (#[trigger] r@[p]).size == prof_size@[p],
{
    let mut r: Vec<ProfInfo> = Vec::new();
    let mut p: usize = 0;
    while p < prof_trida.len()
        invariant
            p <= prof_trida@.len(),
            prof_trida@.len() == prof_size@.len(),
            crate::data::tridy_platne(skola.tridy@),
            limity.dobre(),
            r@.len() == p,
            forall|x: int| 0 <= x < p ==> (#[trigger] r@[x]).size == prof_size@[x],
        decreases prof_trida@.len() - p,
    {
        let tr = prof_trida[p].as_str();
        let lim: Omezeni = match limity.get(tr) {
            Some(l) => *l,
            None => Omezeni { rane: None, odpoledni: None },
        };
        let ef: u8 = match skola.pozice_tridy(tr) {
            Some(i) => {
                proof {
                    assert(skola.tridy@[i as int].platna());
                }
                skola.tridy[i].efektivni_rocnik()
            },
            None => 8,
        };
        let w: u32 = if ef <= 5 { skola.nastaveni.vahy.odpoledne_nizsi } else { skola.nastaveni.vahy.odpoledne_vyssi };
        r.push(ProfInfo { size: prof_size[p], rane: lim.rane, odpo: lim.odpoledni, w_odpo: w as i64 });
        p = p + 1;
    }
    r
}

impl Model {
    /// Sestaví model řešiče z lekcí a jednotek.
    pub fn postav(skola: &Skola, vs: &Vstup, piny: &Mapa<u8>, varovani: &mut Vec<String>) -> (m: Model)
        requires
            vstup_platny(*vs),
            crate::data::tridy_platne(skola.tridy@),
            piny.dobre(),
            vs.lekce@.len() <= u32::MAX,
            vs.jednotky@.len() <= u32::MAX,
        ensures
            crate::solver::zacina_na(old(varovani)@, final(varovani)@),
            m.dobry(),
            m.limity.dobre(),
            m.prof_trida@.len() == m.prof_units@.len(),
            m.za_den == skola.nastaveni.limity_za_den,
            m.odpo_od == odpoledne_od_spec(skola.nastaveni.odpoledne_od),
            forall|t: int|
                0 <= t < skola.tridy@.len() && posledni_s_id(skola.tridy@, t, skola.tridy@.len() as int) ==> m.limity.hodnota(
                    #[trigger] skola.tridy@[t].id@,
                ) == limit_tridy(
                    skola.tridy@[t],
                    potreba_tridy(m.prof_units@, m.prof_trida@, m.ulen@, skola.tridy@[t].id@, m.prof_units@.len() as int),
                    m.za_den,
                    m.odpo_od as int,
                    skola.nastaveni.auto_uvolneni,
                ),
            forall|t: int|
                0 <= t < skola.tridy@.len() && uvolnuje_se(*skola, m.prof_units@, m.prof_trida@, m.ulen@, m.za_den, m.odpo_od as int, t)
                    ==> crate::validation::hlasi(
                    final(varovani)@,
                    text_uvolneni(
                        #[trigger] skola.tridy@[t],
                        potreba_tridy(m.prof_units@, m.prof_trida@, m.ulen@, skola.tridy@[t].id@, m.prof_units@.len() as int),
                        m.za_den,
                        m.odpo_od as int,
                    ),
                ),
            m.n_u == vs.jednotky@.len(),
            piny_hlaseny(*vs, *piny, m.ulen@, final(varovani)@, vs.jednotky@.len() as int, 0),
            forall|x: Seq<char>|
                piny.ma(x) && !ma_lekci_s_klicem(vs.lekce@, x) ==> crate::validation::hlasi(final(varovani)@, #[trigger] text_pinu_bez_lekce(x)),
            konflikty_dobre(m.conf@, m.n_u as int),
            forall|u: int, v: int| 0 <= u < m.n_u && 0 <= v < m.n_u ==> #[trigger] m.conf@[u]@[v] == konflikt_jednotek(*vs, u, v),
            forall|u: int|
                0 <= u < m.n_u ==> maska_s_pinem(
                    #[trigger] m.allowed@[u]@,
                    pin_jednotky(vs.jednotky@[u]@, vs.lekce@, *piny, m.ulen@[u] as int),
                    m.ulen@[u] as int,
                ),
            forall|u: int, k: int|
                0 <= u < vs.jednotky@.len() && 0 <= k < vs.jednotky@[u]@.len() ==> vs.lekce@[(#[trigger] vs.jednotky@[u]@[k]) as int].len
                    <= m.ulen@[u],
            forall|u: int|
                0 <= u < m.n_u && pin_jednotky(vs.jednotky@[u]@, vs.lekce@, *piny, m.ulen@[u] as int) is None ==> #[trigger] m.allowed@[u]@
                    == zakladni_maska(*skola, *vs, m.limity, m.odpo_od as int, u, m.ulen@[u] as int),
    {
        let nast = &skola.nastaveni;
        let za_den = nast.limity_za_den;
        let odpo_od: usize = if (nast.odpoledne_od as usize) < 1 {
            1
        } else if (nast.odpoledne_od as usize) > SLOTU {
            SLOTU
        } else {
            nast.odpoledne_od as usize
        };
        let n_u = vs.jednotky.len();
        proof {
            assert forall|i: int| 0 <= i < vs.lekce@.len() implies 1 <= (#[trigger] vs.lekce@[i]).len <= 2 by {
                assert(lekce_platna(vs.lekce@[i], vs.zaci_tridy@));
            }
        }
        let (ulen, usz) = delky_jednotek(vs);
        let (prof_units, prof_trida, prof_size, ids, zak_lekce) = profily(vs);
        proof {
            lemma_rostouci_delka(ids@);
        }
        let limity = limity_trid(skola, &prof_units, &prof_trida, &ulen, za_den, odpo_od, varovani);
        let ghost w1 = varovani@;
        proof {
            assert(odpo_od == odpoledne_od_spec(nast.odpoledne_od));
        }
        let mut masky: Mapa<Vec<bool>> = Mapa::new();
        let mut k: usize = 0;
        while k < limity.polozky.len()
            invariant
                k <= limity.polozky@.len(),
                limity.dobre(),
                masky.dobre(),
                forall|x: Seq<char>| masky.ma(x) ==> masky.hodnota(x)@.len() == SLOTU,
                forall|x: Seq<char>| #[trigger] masky.ma(x) ==> limity.ma(x),
                forall|k2: int| 0 <= k2 < k ==> masky.ma(#[trigger] limity.polozky@[k2].0@),
                forall|x: Seq<char>, i: int|
                    masky.ma(x) && 0 <= i < SLOTU ==> #[trigger] masky.hodnota(x)@[i] == crate::solver::maska_spec(
                        limity.hodnota(x),
                        odpo_od as int,
                        i,
                    ),
            decreases limity.polozky@.len() - k,
        {
            let maska = crate::solver::maska_tridy(limity.polozky[k].1, odpo_od);
            proof {
                limity.lemma_jednoznacne(k as int, limity.polozky@[k as int].0@);
            }
            let ghost mk0 = masky;
            masky.insert(limity.polozky[k].0.clone(), maska);
            proof {
                assert forall|k2: int| 0 <= k2 < k + 1 implies masky.ma(#[trigger] limity.polozky@[k2].0@) by {
                    if k2 < k && limity.polozky@[k2].0@ != limity.polozky@[k as int].0@ {
                        assert(mk0.ma(limity.polozky@[k2].0@));
                    }
                }
            }
            k = k + 1;
        }
        proof {
            assert forall|x: Seq<char>| #[trigger] masky.ma(x) == limity.ma(x) by {
                if limity.ma(x) {
                    let i = limity.index_klice(x);
                    assert(masky.ma(limity.polozky@[i].0@));
                }
            }
            assert(masky_limitu(masky, limity, odpo_od as int));
        }
        let prof = info_profilu(skola, &prof_trida, &prof_size, &limity);
        let mut uprof = prazdne(n_u);
        proof {
            lemma_prazdne_pod_mez(uprof@, prof@.len() as int);
        }
        let mut p: usize = 0;
        while p < prof_units.len()
            invariant
                p <= prof_units@.len(),
                prof_units@.len() <= 0x1_0000_0000,
                prof@.len() == prof_units@.len(),
                pod_mez(prof_units@, n_u as int),
                uprof@.len() == n_u,
                pod_mez(uprof@, prof@.len() as int),
            decreases prof_units@.len() - p,
        {
            let us = &prof_units[p];
            let mut q: usize = 0;
            while q < us.len()
                invariant
                    q <= us@.len(),
                    *us == prof_units@[p as int],
                    p < prof_units@.len(),
                    prof_units@.len() <= 0x1_0000_0000,
                    prof@.len() == prof_units@.len(),
                    pod_mez(prof_units@, n_u as int),
                    uprof@.len() == n_u,
                    pod_mez(uprof@, prof@.len() as int),
                decreases us@.len() - q,
            {
                proof {
                    assert(us@[q as int] < n_u);
                }
                pridej_do(&mut uprof, us[q] as usize, p as u32, false, Ghost(prof@.len() as int));
                q = q + 1;
            }
            p = p + 1;
        }
        let (teach_max, uteach, uteach_pref, uc_lekce) = ucitele_jednotek(skola, vs);
        let (key_len, key_size, ukeys) = klice_jednotek(vs);
        let (pool_cap, upools) = bazeny(vs);
        let allowed = povolene_starty(skola, vs, &ulen, &masky, piny, varovani, Ghost(limity), Ghost(odpo_od as int));
        let ghost w2 = varovani@;
        let (conf, strukturalni) = konflikty(vs, &zak_lekce, &uc_lekce, teach_max.len(), varovani);
        proof {
            assert forall|u: int, v: int| 0 <= u < n_u && 0 <= v < n_u implies #[trigger] conf@[u]@[v] == konflikt_jednotek(*vs, u, v) by {
                lemma_konflikty_vyznam(*vs, uc_lekce@, teach_max@.len() as int, zak_lekce@, ids@, u, v);
            }
        }
        let uplace = ceny_umisteni(vs, &ulen, &usz, odpo_od, nast.vahy.seminar_odpoledne);
        let m = Model {
            n_u,
            ulen,
            allowed,
            conf,
            uprof,
            uteach,
            uteach_pref,
            ukeys,
            upools,
            uplace,
            usize_: usz,
            prof_units,
            prof_trida,
            prof,
            teach_max,
            key_len,
            key_size,
            pool_cap,
            za_den,
            odpo_od,
            vahy: nast.vahy.clone(),
            strukturalni,
            limity,
        };
        proof {
            assert forall|u: int| 0 <= u < n_u implies nejaky_povoleny(#[trigger] m.allowed@[u]@) by {
                assert(maska_s_pinem(m.allowed@[u]@, pin_jednotky(vs.jednotky@[u]@, vs.lekce@, *piny, m.ulen@[u] as int), m.ulen@[u] as int));
            }
            assert forall|u: int, s: int|
                0 <= u < n_u && 0 <= s < N_SLOTU && #[trigger] m.allowed@[u]@[s] implies s % (SLOTU as int) + m.ulen@[u] <= SLOTU by {
                let pin = pin_jednotky(vs.jednotky@[u]@, vs.lekce@, *piny, m.ulen@[u] as int);
                assert(maska_s_pinem(m.allowed@[u]@, pin, m.ulen@[u] as int));
                lemma_pin_vejde(vs.jednotky@[u]@, vs.lekce@, *piny, m.ulen@[u] as int);
            }
            assert forall|t: int|
                0 <= t < skola.tridy@.len() && uvolnuje_se(*skola, m.prof_units@, m.prof_trida@, m.ulen@, m.za_den, m.odpo_od as int, t)
                    implies crate::validation::hlasi(
                    varovani@,
                    text_uvolneni(
                        #[trigger] skola.tridy@[t],
                        potreba_tridy(m.prof_units@, m.prof_trida@, m.ulen@, skola.tridy@[t].id@, m.prof_units@.len() as int),
                        m.za_den,
                        m.odpo_od as int,
                    ),
                ) by {
                let tt = text_uvolneni(
                    skola.tridy@[t],
                    potreba_tridy(prof_units@, prof_trida@, ulen@, skola.tridy@[t].id@, prof_units@.len() as int),
                    za_den,
                    odpo_od as int,
                );
                assert(crate::validation::hlasi(w1, tt));
                let jj = choose|jj: int| 0 <= jj < w1.len() && (#[trigger] w1[jj])@ == tt;
                assert(varovani@[jj] == w1[jj]);
            }
            assert forall|x: int, kk: int|
                0 <= x < vs.jednotky@.len() && 0 <= kk < vs.jednotky@[x]@.len() && (x < vs.jednotky@.len() as int || (x
                    == vs.jednotky@.len() as int && kk < 0)) && pin_mimo_den(
                    vs.lekce@,
                    *piny,
                    #[trigger] vs.jednotky@[x]@[kk] as int,
                    m.ulen@[x] as int,
                ) implies crate::validation::hlasi(varovani@, text_pinu_mimo_den(vs.lekce@[vs.jednotky@[x]@[kk] as int].klic@)) by {
                let tt = text_pinu_mimo_den(vs.lekce@[vs.jednotky@[x]@[kk] as int].klic@);
                assert(crate::validation::hlasi(w2, tt));
                let jj = choose|jj: int| 0 <= jj < w2.len() && (#[trigger] w2[jj])@ == tt;
                assert(varovani@[jj] == w2[jj]);
            }
            assert forall|x: Seq<char>| piny.ma(x) && !ma_lekci_s_klicem(vs.lekce@, x) implies crate::validation::hlasi(
                varovani@,
                #[trigger] text_pinu_bez_lekce(x),
            ) by {
                let tt = text_pinu_bez_lekce(x);
                assert(crate::validation::hlasi(w2, tt));
                let jj = choose|jj: int| 0 <= jj < w2.len() && (#[trigger] w2[jj])@ == tt;
                assert(varovani@[jj] == w2[jj]);
            }
            assert forall|j: int| 0 <= j < old(varovani)@.len() implies #[trigger] varovani@[j] == old(varovani)@[j] by {
                assert(w2[j] == w1[j]);
            }
        }
        m
    }
}

} // verus!
