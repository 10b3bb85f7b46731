//! Uspořádaná mapa s textovými klíči: položky leží ve vektoru seřazené podle klíče
//! (lexikograficky podle kódových bodů), každý klíč nejvýše jednou. Procházení tedy
//! probíhá ve stejném pořadí jako u `BTreeMap<String, V>`.

use crate::text::{lex_mensi, porovnej_znaky, rovno, znaky};
use vstd::prelude::*;

verus! {

pub proof fn lemma_lex_ireflexivni(a: Seq<char>)
    ensures
        !lex_mensi(a, a),
    decreases a.len(),
{
    if a.len() > 0 {
        lemma_lex_ireflexivni(a.drop_first());
    }
}

pub proof fn lemma_lex_asymetricky(a: Seq<char>, b: Seq<char>)
    ensures
        !(lex_mensi(a, b) && lex_mensi(b, a)),
    decreases a.len(),
{
    if a.len() > 0 && b.len() > 0 && a[0] == b[0] {
        lemma_lex_asymetricky(a.drop_first(), b.drop_first());
    }
}

pub proof fn lemma_lex_tranzitivni(a: Seq<char>, b: Seq<char>, c: Seq<char>)
    requires
        lex_mensi(a, b),
        lex_mensi(b, c),
    ensures
        lex_mensi(a, c),
    decreases a.len(),
{
    if a.len() > 0 && b.len() > 0 && c.len() > 0 && a[0] == b[0] && b[0] == c[0] {
        lemma_lex_tranzitivni(a.drop_first(), b.drop_first(), c.drop_first());
    }
}

pub proof fn lemma_lex_uplny(a: Seq<char>, b: Seq<char>)
    ensures
        a == b || lex_mensi(a, b) || lex_mensi(b, a),
    decreases a.len(),
{
    if a.len() > 0 && b.len() > 0 && a[0] == b[0] {
        lemma_lex_uplny(a.drop_first(), b.drop_first());
        if a.drop_first() == b.drop_first() {
            assert(a =~= b) by {
                assert forall|i: int| 0 <= i < a.len() implies a[i] == b[i] by {
                    if i > 0 {
                        assert(a.drop_first()[i - 1] == b.drop_first()[i - 1]);
                    }
                }
            }
        }
    } else if a.len() == 0 && b.len() == 0 {
        assert(a =~= b);
    }
}

/// Klíče posloupnosti položek.
pub open spec fn klice_polozek<V>(p: Seq<(String, V)>) -> Seq<Seq<char>> {
    p.map_values(|x: (String, V)| x.0@)
}

/// Klíče jsou ostře rostoucí.
pub open spec fn serazene(k: Seq<Seq<char>>) -> bool {
    forall|i: int, j: int| 0 <= i < j < k.len() ==> lex_mensi(#[trigger] k[i], #[trigger] k[j])
}

#[derive(Clone, Debug, Default)]
pub struct Mapa<V> {
    pub polozky: Vec<(String, V)>,
}

impl<V> Mapa<V> {
    /// Klíče v pořadí uložení.
    pub open spec fn klice(&self) -> Seq<Seq<char>> {
        klice_polozek(self.polozky@)
    }

    /// Dobře utvořená mapa: klíče ostře rostou.
    pub open spec fn dobre(&self) -> bool {
        serazene(self.klice())
    }

    /// Obsahuje klíč?
    pub open spec fn ma(&self, k: Seq<char>) -> bool {
        exists|i: int| 0 <= i < self.polozky@.len() && #[trigger] self.polozky@[i].0@ == k
    }

    /// Index klíče (má smysl, jen když klíč v mapě je).
    pub open spec fn index_klice(&self, k: Seq<char>) -> int {
        choose|i: int| 0 <= i < self.polozky@.len() && #[trigger] self.polozky@[i].0@ == k
    }

    /// Hodnota pod klíčem (má smysl, jen když klíč v mapě je).
    pub open spec fn hodnota(&self, k: Seq<char>) -> V {
        self.polozky@[self.index_klice(k)].1
    }

    /// Mapa jako matematická mapa.
    pub open spec fn mapa(&self) -> Map<Seq<char>, V> {
        Map::new(|k: Seq<char>| self.ma(k), |k: Seq<char>| self.hodnota(k))
    }

    pub fn new() -> (m: Self)
        ensures
            m.polozky@.len() == 0,
            m.dobre(),
            m.mapa() == Map::<Seq<char>, V>::empty(),
    {
        let m = Mapa { polozky: Vec::new() };
        proof {
            assert(m.mapa() =~= Map::<Seq<char>, V>::empty());
        }
        m
    }

    pub fn len(&self) -> (n: usize)
        ensures
            n == self.polozky@.len(),
    {
        self.polozky.len()
    }

    /// Pozice klíče, je-li v mapě.
    pub fn pozice(&self, k: &str) -> (r: Option<usize>)
        requires
            self.dobre(),
        ensures
            match r {
                Some(i) => i < self.polozky@.len() && self.polozky@[i as int].0@ == k@,
                None => !self.ma(k@),
            },
    {
        let mut i: usize = 0;
        while i < self.polozky.len()
            invariant
                i <= self.polozky@.len(),
                forall|j: int| 0 <= j < i ==> self.polozky@[j].0@ != k@,
            decreases self.polozky@.len() - i,
        {
            if rovno(self.polozky[i].0.as_str(), k) {
                return Some(i);
            }
            i = i + 1;
        }
        None
    }

    pub proof fn lemma_jednoznacne(&self, i: int, k: Seq<char>)
        requires
            self.dobre(),
            0 <= i < self.polozky@.len(),
            self.polozky@[i].0@ == k,
        ensures
            self.ma(k),
            self.hodnota(k) == self.polozky@[i].1,
    {
        assert(self.polozky@[i].0@ == k);
        let j = self.index_klice(k);
        assert(0 <= j < self.polozky@.len() && self.polozky@[j].0@ == k);
        assert(self.klice()[j] == k && self.klice()[i] == k);
        if j < i {
            assert(lex_mensi(self.klice()[j], self.klice()[i]));
            lemma_lex_ireflexivni(k);
        } else if i < j {
            assert(lex_mensi(self.klice()[i], self.klice()[j]));
            lemma_lex_ireflexivni(k);
        }
        assert(j == i);
    }

    /// Hodnota pod klíčem.
    pub fn get(&self, k: &str) -> (r: Option<&V>)
        requires
            self.dobre(),
        ensures
            match r {
                Some(v) => self.ma(k@) && *v == self.hodnota(k@),
                None => !self.ma(k@),
            },
    {
        match self.pozice(k) {
            Some(i) => {
                proof {
                    self.lemma_jednoznacne(i as int, k@);
                }
                Some(&self.polozky[i].1)
            },
            None => None,
        }
    }

    pub fn contains_key(&self, k: &str) -> (r: bool)
        requires
            self.dobre(),
        ensures
            r == self.ma(k@),
    {
        self.pozice(k).is_some()
    }

    /// Vloží nebo nahradí hodnotu; ostatní klíče zůstanou.
    pub fn insert(&mut self, k: String, v: V)
        requires
            old(self).dobre(),
        ensures
            final(self).dobre(),
            final(self).ma(k@),
            final(self).hodnota(k@) == v,
            forall|x: Seq<char>| x != k@ ==> (final(self).ma(x) == old(self).ma(x)),
            forall|x: Seq<char>|
                x != k@ && old(self).ma(x) ==> final(self).hodnota(x) == old(self).hodnota(x),
            old(self).ma(k@) ==> final(self).polozky@.len() == old(self).polozky@.len(),
            !old(self).ma(k@) ==> final(self).polozky@.len() == old(self).polozky@.len() + 1,
            final(self).mapa() == old(self).mapa().insert(k@, v),
    {
        let ghost kk = k@;
        let ghost vv = v;
        self.vloz_interni(k, v);
        proof {
            assert(self.mapa() =~= old(self).mapa().insert(kk, vv));
        }
    }

    fn vloz_interni(&mut self, k: String, v: V)
        requires
            old(self).dobre(),
        ensures
            final(self).dobre(),
            final(self).ma(k@),
            final(self).hodnota(k@) == v,
            forall|x: Seq<char>| x != k@ ==> (final(self).ma(x) == old(self).ma(x)),
            forall|x: Seq<char>|
                x != k@ && old(self).ma(x) ==> final(self).hodnota(x) == old(self).hodnota(x),
            old(self).ma(k@) ==> final(self).polozky@.len() == old(self).polozky@.len(),
            !old(self).ma(k@) ==> final(self).polozky@.len() == old(self).polozky@.len() + 1,
    {
        let kz = znaky(k.as_str());
        let mut p: usize = 0;
        let mut hotovo = false;
        while p < self.polozky.len() && !hotovo
            invariant
                p <= self.polozky@.len(),
                kz@ == k@,
                forall|j: int| 0 <= j < p ==> lex_mensi(#[trigger] self.polozky@[j].0@, k@),
                hotovo ==> p < self.polozky@.len() && !lex_mensi(self.polozky@[p as int].0@, k@),
            decreases self.polozky@.len() - p + (if hotovo { 0int } else { 1int }),
        {
            let z = znaky(self.polozky[p].0.as_str());
            if porovnej_znaky(&z, &kz) != -1 {
                hotovo = true;
            } else {
                p = p + 1;
            }
        }
        let ghost stare = self.polozky@;
        if p < self.polozky.len() && rovno(self.polozky[p].0.as_str(), k.as_str()) {
            self.polozky.set(p, (k, v));
            proof {
                assert(klice_polozek(self.polozky@) =~= klice_polozek(stare));
                assert(self.polozky@[p as int].0@ == k@);
                self.lemma_jednoznacne(p as int, k@);
                assert forall|x: Seq<char>| x != k@ implies (self.ma(x) == old(self).ma(x)) by {
                    if self.ma(x) {
                        let i = choose|i: int| 0 <= i < self.polozky@.len() && #[trigger] self.polozky@[i].0@ == x;
                        assert(stare[i].0@ == x);
                    }
                    if old(self).ma(x) {
                        let i = choose|i: int| 0 <= i < stare.len() && #[trigger] stare[i].0@ == x;
                        assert(self.polozky@[i].0@ == x);
                    }
                }
                assert forall|x: Seq<char>|
                    x != k@ && old(self).ma(x) implies self.hodnota(x) == old(self).hodnota(x) by {
                    let i = choose|i: int| 0 <= i < stare.len() && #[trigger] stare[i].0@ == x;
                    old(self).lemma_jednoznacne(i, x);
                    assert(self.polozky@[i].0@ == x);
                    self.lemma_jednoznacne(i, x);
                }
            }
        } else {
            proof {
                if p < stare.len() {
                    let ghost z = stare[p as int].0@;
                    lemma_lex_uplny(z, k@);
                    assert(!lex_mensi(z, k@));
                    assert(lex_mensi(k@, z));
                }
                assert(!old(self).ma(k@)) by {
                    if old(self).ma(k@) {
                        let i = choose|i: int| 0 <= i < stare.len() && #[trigger] stare[i].0@ == k@;
                        if i < p {
                            lemma_lex_ireflexivni(k@);
                        } else if i == p {
                        } else {
                            assert(lex_mensi(klice_polozek(stare)[p as int], klice_polozek(stare)[i]));
                            lemma_lex_asymetricky(k@, stare[p as int].0@);
                        }
                    }
                }
            }
            self.polozky.insert(p, (k, v));
            proof {
                let nove = self.polozky@;
                assert(nove.len() == stare.len() + 1);
                assert forall|j: int| 0 <= j < nove.len() implies #[trigger] nove[j] == (if j < p {
                    stare[j]
                } else if j == p {
                    nove[p as int]
                } else {
                    stare[j - 1]
                }) by {}
                assert(serazene(klice_polozek(nove))) by {
                    assert forall|i: int, j: int| 0 <= i < j < nove.len() implies lex_mensi(
                        #[trigger] klice_polozek(nove)[i],
                        #[trigger] klice_polozek(nove)[j],
                    ) by {
                        let ki = klice_polozek(nove)[i];
                        let kj = klice_polozek(nove)[j];
                        if j < p {
                            assert(klice_polozek(stare)[i] == ki && klice_polozek(stare)[j] == kj);
                        } else if j == p {
                            assert(ki == stare[i].0@);
                        } else if i > p {
                            assert(klice_polozek(stare)[i - 1] == ki && klice_polozek(stare)[j - 1] == kj);
                        } else if i == p {
                            assert(kj == stare[j - 1].0@);
                            if j - 1 > p {
                                assert(lex_mensi(klice_polozek(stare)[p as int], klice_polozek(stare)[j - 1]));
                                lemma_lex_tranzitivni(k@, stare[p as int].0@, kj);
                            }
                        } else {
                            assert(ki == stare[i].0@ && kj == stare[j - 1].0@);
                            assert(lex_mensi(ki, k@));
                            if j - 1 > p {
                                assert(lex_mensi(klice_polozek(stare)[p as int], klice_polozek(stare)[j - 1]));
                                lemma_lex_tranzitivni(k@, stare[p as int].0@, kj);
                            }
                            lemma_lex_tranzitivni(ki, k@, kj);
                        }
                    }
                }
                assert(nove[p as int].0@ == k@);
                self.lemma_jednoznacne(p as int, k@);
                assert forall|x: Seq<char>| x != k@ implies (self.ma(x) == old(self).ma(x)) by {
                    if self.ma(x) {
                        let i = choose|i: int| 0 <= i < nove.len() && #[trigger] nove[i].0@ == x;
                        if i < p {
                            assert(stare[i].0@ == x);
                        } else {
                            assert(stare[i - 1].0@ == x);
                        }
                    }
                    if old(self).ma(x) {
                        let i = choose|i: int| 0 <= i < stare.len() && #[trigger] stare[i].0@ == x;
                        if i < p {
                            assert(nove[i].0@ == x);
                        } else {
                            assert(nove[i + 1].0@ == x);
                        }
                    }
                }
                assert forall|x: Seq<char>|
                    x != k@ && old(self).ma(x) implies self.hodnota(x) == old(self).hodnota(x) by {
                    let i = choose|i: int| 0 <= i < stare.len() && #[trigger] stare[i].0@ == x;
                    old(self).lemma_jednoznacne(i, x);
                    if i < p {
                        assert(nove[i].0@ == x);
                        self.lemma_jednoznacne(i, x);
                    } else {
                        assert(nove[i + 1].0@ == x);
                        self.lemma_jednoznacne(i + 1, x);
                    }
                }
            }
        }
    }
}

impl<V> Mapa<V> {
    /// Odebere klíč; ostatní klíče a hodnoty zůstanou.
    pub fn remove(&mut self, k: &str) -> (r: Option<V>)
        requires
            old(self).dobre(),
        ensures
            final(self).dobre(),
            !final(self).ma(k@),
            match r {
                Some(v) => old(self).ma(k@) && v == old(self).hodnota(k@),
                None => !old(self).ma(k@),
            },
            forall|x: Seq<char>| x != k@ ==> (final(self).ma(x) == old(self).ma(x)),
            forall|x: Seq<char>|
                x != k@ && old(self).ma(x) ==> final(self).hodnota(x) == old(self).hodnota(x),
            final(self).mapa() == old(self).mapa().remove(k@),
    {
        let r = self.odeber_interni(k);
        proof {
            assert(self.mapa() =~= old(self).mapa().remove(k@));
        }
        r
    }

    fn odeber_interni(&mut self, k: &str) -> (r: Option<V>)
        requires
            old(self).dobre(),
        ensures
            final(self).dobre(),
            !final(self).ma(k@),
            match r {
                Some(v) => old(self).ma(k@) && v == old(self).hodnota(k@),
                None => !old(self).ma(k@),
            },
            forall|x: Seq<char>| x != k@ ==> (final(self).ma(x) == old(self).ma(x)),
            forall|x: Seq<char>|
                x != k@ && old(self).ma(x) ==> final(self).hodnota(x) == old(self).hodnota(x),
    {
        match self.pozice(k) {
            None => {
                proof {
                    assert(!self.ma(k@));
                }
                None
            },
            Some(p) => {
                let ghost stare = self.polozky@;
                proof {
                    old(self).lemma_jednoznacne(p as int, k@);
                }
                let (_, v) = self.polozky.remove(p);
                proof {
                    let nove = self.polozky@;
                    assert forall|j: int| 0 <= j < nove.len() implies #[trigger] nove[j] == (if j < p {
                        stare[j]
                    } else {
                        stare[j + 1]
                    }) by {}
                    assert(serazene(klice_polozek(nove))) by {
                        assert forall|i: int, j: int| 0 <= i < j < nove.len() implies lex_mensi(
                            #[trigger] klice_polozek(nove)[i],
                            #[trigger] klice_polozek(nove)[j],
                        ) by {
                            let a = if i < p { i } else { i + 1 };
                            let b = if j < p { j } else { j + 1 };
                            assert(klice_polozek(stare)[a] == klice_polozek(nove)[i]);
                            assert(klice_polozek(stare)[b] == klice_polozek(nove)[j]);
                        }
                    }
                    assert(!self.ma(k@)) by {
                        if self.ma(k@) {
                            let i = choose|i: int| 0 <= i < nove.len() && #[trigger] nove[i].0@ == k@;
                            let a = if i < p { i } else { i + 1 };
                            assert(stare[a].0@ == k@);
                            old(self).lemma_jednoznacne(a, k@);
                            assert(klice_polozek(stare)[a] == k@);
                            assert(klice_polozek(stare)[p as int] == k@);
                            lemma_lex_ireflexivni(k@);
                        }
                    }
                    assert forall|x: Seq<char>| x != k@ implies (self.ma(x) == old(self).ma(x)) by {
                        if self.ma(x) {
                            let i = choose|i: int| 0 <= i < nove.len() && #[trigger] nove[i].0@ == x;
                            let a = if i < p { i } else { i + 1 };
                            assert(stare[a].0@ == x);
                        }
                        if old(self).ma(x) {
                            let i = choose|i: int| 0 <= i < stare.len() && #[trigger] stare[i].0@ == x;
                            assert(i != p);
                            let a = if i < p { i } else { i - 1 };
                            assert(nove[a].0@ == x);
                        }
                    }
                    assert forall|x: Seq<char>|
                        x != k@ && old(self).ma(x) implies self.hodnota(x) == old(self).hodnota(x) by {
                        let i = choose|i: int| 0 <= i < stare.len() && #[trigger] stare[i].0@ == x;
                        old(self).lemma_jednoznacne(i, x);
                        assert(i != p);
                        let a = if i < p { i } else { i - 1 };
                        assert(nove[a].0@ == x);
                        self.lemma_jednoznacne(a, x);
                    }
                }
                Some(v)
            },
        }
    }
}

} // verus!
