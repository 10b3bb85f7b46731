//! Pomůcky editoru: druh struktury hodiny, převod struktury na jiný druh a popisek
//! dalšího školního roku.

use crate::data::{druh, ucitele_struktury, Pol, Struktura};
use crate::hledani::prvni;
use crate::text::{cislo, cislo2, desitkove, dvoumistne, orez, orez_znaky, pripoj, znaky};
use vstd::prelude::*;

verus! {

/// Druh struktury: 0 celá třída, 1 AJa/AJb, 2 dívky/chlapci, 3 L↔S třída, 4 L↔S skupiny.
pub fn druh_struktury(s: &Struktura) -> (r: usize)
    ensures
        r == druh(*s),
{
    match s {
        Struktura::CelouTridou(_) => 0,
        Struktura::Rozdeleno { .. } => 1,
        Struktura::Pohlavi { .. } => 2,
        Struktura::Stridave { .. } => 3,
        Struktura::StridaveSkupiny { .. } => 4,
    }
}

/// První učitel struktury.
pub open spec fn prvni_ucitel(s: Struktura) -> Seq<char> {
    ucitele_struktury(s)[0]
}

/// Druhý učitel struktury (u celé třídy ten první).
pub open spec fn druhy_ucitel(s: Struktura) -> Seq<char> {
    if ucitele_struktury(s).len() > 1 {
        ucitele_struktury(s)[1]
    } else {
        prvni_ucitel(s)
    }
}

/// Převede strukturu hodiny na jiný druh (4 a víc = L↔S skupiny): první učitel
/// zůstane, druhý se vezme z původní struktury, nebo zopakuje první; u střídání se
/// oběma polovinám dá zadaný předmět.
pub fn preved_strukturu(s: &Struktura, predmet: &str, d: usize) -> (r: Struktura)
    ensures
        druh(r) == (if d < 4 {
            d
        } else {
            4
        }),
        ucitele_struktury(r) == (if d == 0 {
            seq![prvni_ucitel(*s)]
        } else if d < 4 {
            seq![prvni_ucitel(*s), druhy_ucitel(*s)]
        } else {
            seq![prvni_ucitel(*s), druhy_ucitel(*s), druhy_ucitel(*s), prvni_ucitel(*s)]
        }),
        match r {
            Struktura::Stridave { l, s } => l.predmet@ == predmet@ && s.predmet@ == predmet@,
            Struktura::StridaveSkupiny { a, b } => a[0].predmet@ == predmet@ && a[1].predmet@ == predmet@
                && b[0].predmet@ == predmet@ && b[1].predmet@ == predmet@,
            _ => true,
        },
{
    let uc = s.ucitele();
    proof {
        assert(ucitele_struktury(*s).len() >= 1);
        assert(uc@.map_values(|x: &str| x@)[0] == uc@[0]@);
    }
    let u = uc[0].to_owned();
    let u2 = if uc.len() > 1 {
        proof {
            assert(uc@.map_values(|x: &str| x@)[1] == uc@[1]@);
        }
        uc[1].to_owned()
    } else {
        u.clone()
    };
    if d == 0 {
        Struktura::CelouTridou(u)
    } else if d == 1 {
        Struktura::Rozdeleno { a: u, b: u2 }
    } else if d == 2 {
        Struktura::Pohlavi { div: u, chl: u2 }
    } else if d == 3 {
        Struktura::Stridave {
            l: Pol { predmet: predmet.to_owned(), ucitel: u },
            s: Pol { predmet: predmet.to_owned(), ucitel: u2 },
        }
    } else {
        let a = [
            Pol { predmet: predmet.to_owned(), ucitel: u.clone() },
            Pol { predmet: predmet.to_owned(), ucitel: u2.clone() },
        ];
        let b = [Pol { predmet: predmet.to_owned(), ucitel: u2 }, Pol { predmet: predmet.to_owned(), ucitel: u }];
        Struktura::StridaveSkupiny { a, b }
    }
}

/// Desítková hodnota číslic.
pub open spec fn hodnota_cislic(s: Seq<char>) -> nat
    decreases s.len(),
{
    if s.len() == 0 {
        0
    } else {
        10 * hodnota_cislic(s.drop_last()) + ((s.last() as int - '0' as int) as nat)
    }
}

/// Samé číslice 0–9.
pub open spec fn same_cislice(s: Seq<char>) -> bool {
    forall|i: int| 0 <= i < s.len() ==> '0' <= #[trigger] s[i] <= '9'
}

/// Číslo `u32` zapsané desítkově, s nepovinným „+“ (jak je čte `str::parse::<u32>`).
pub open spec fn parsuj_u32(s: Seq<char>) -> Option<u32> {
    let t = if s.len() > 0 && s[0] == '+' {
        s.drop_first()
    } else {
        s
    };
    if t.len() > 0 && same_cislice(t) && hodnota_cislic(t) <= u32::MAX {
        Some(hodnota_cislic(t) as u32)
    } else {
        None
    }
}

proof fn lemma_hodnota_roste(s: Seq<char>, i: int)
    requires
        0 <= i <= s.len(),
        same_cislice(s),
    ensures
        hodnota_cislic(s.take(i)) <= hodnota_cislic(s),
    decreases s.len() - i,
{
    if i < s.len() {
        lemma_hodnota_roste(s, i + 1);
        assert(s.take(i + 1).drop_last() =~= s.take(i));
        assert(s.take(i + 1).last() == s[i]);
        assert('0' <= s[i] <= '9');
        assert(hodnota_cislic(s.take(i + 1)) == 10 * hodnota_cislic(s.take(i)) + ((s[i] as int - '0' as int) as nat));
    } else {
        assert(s.take(i) =~= s);
    }
}

/// Přečte číslo `u32` (viz `parsuj_u32`).
pub fn cti_u32(s: &Vec<char>) -> (r: Option<u32>)
    ensures
        r == parsuj_u32(s@),
{
    let zacatek: usize = if s.len() > 0 && s[0] == '+' {
        1
    } else {
        0
    };
    let ghost t = if s@.len() > 0 && s@[0] == '+' {
        s@.drop_first()
    } else {
        s@
    };
    proof {
        assert(t =~= s@.skip(zacatek as int));
        assert(parsuj_u32(s@) == (if t.len() > 0 && same_cislice(t) && hodnota_cislic(t) <= u32::MAX {
            Some(hodnota_cislic(t) as u32)
        } else {
            None
        }));
    }
    if zacatek >= s.len() {
        return None;
    }
    let mut h: u64 = 0;
    let mut i: usize = zacatek;
    while i < s.len()
        invariant
            zacatek <= i <= s@.len(),
            parsuj_u32(s@) == (if t.len() > 0 && same_cislice(t) && hodnota_cislic(t) <= u32::MAX {
                Some(hodnota_cislic(t) as u32)
            } else {
                None
            }),
            t =~= s@.skip(zacatek as int),
            same_cislice(t.take(i - zacatek)),
            h == hodnota_cislic(t.take(i - zacatek)),
            h <= u32::MAX,
        decreases s@.len() - i,
    {
        let c = s[i];
        if c < '0' || c > '9' {
            proof {
                assert(t[i - zacatek] == c);
                assert(!same_cislice(t));
            }
            return None;
        }
        let dig: u64 = (c as u32 - '0' as u32) as u64;
        proof {
            assert(t.take(i + 1 - zacatek).drop_last() =~= t.take(i - zacatek));
            assert(t.take(i + 1 - zacatek).last() == c);
        }
        let n = h * 10 + dig;
        proof {
            assert(hodnota_cislic(t.take(i + 1 - zacatek)) == 10 * hodnota_cislic(t.take(i - zacatek)) + ((c as int - '0' as int) as nat));
            assert(n == hodnota_cislic(t.take(i + 1 - zacatek)));
        }
        if n > u32::MAX as u64 {
            proof {
                assert(same_cislice(t.take(i + 1 - zacatek)));
                if same_cislice(t) {
                    lemma_hodnota_roste(t, i + 1 - zacatek);
                }
            }
            return None;
        }
        h = n;
        i = i + 1;
    }
    proof {
        assert(t.take(s@.len() - zacatek) =~= t);
    }
    Some(h as u32)
}

/// Index prvního výskytu znaku `c` (-1 = není).
pub open spec fn je_znak(c: char) -> spec_fn(char) -> bool {
    |x: char| x == c
}

/// Popisek dalšího školního roku: „2026/27“ → „2027/28“; nedá-li se rok před lomítkem
/// přečíst, přidá se „ (nový)“.
pub open spec fn dalsi_label_spec(l: Seq<char>) -> Seq<char> {
    let i = prvni(l, je_znak('/'));
    if i >= 0 && parsuj_u32(orez(l.take(i))) is Some {
        let y = parsuj_u32(orez(l.take(i)))->0;
        desitkove((y + 1) as nat) + "/"@ + dvoumistne(((y + 2) % 100) as nat)
    } else {
        l + " (nový)"@
    }
}

pub fn dalsi_label(l: &str) -> (r: String)
    requires
        ({
            let i = prvni(l@, je_znak('/'));
            i >= 0 && parsuj_u32(orez(l@.take(i))) is Some ==> parsuj_u32(orez(l@.take(i)))->0 < u32::MAX - 1
        }),
    ensures
        r@ == dalsi_label_spec(l@),
{
    let z = znaky(l);
    let ghost p = je_znak('/');
    let mut i: usize = 0;
    while i < z.len() && z[i] != '/'
        invariant
            i <= z@.len(),
            z@ == l@,
            p == je_znak('/'),
            forall|j: int| 0 <= j < i ==> !p(#[trigger] z@[j]),
        decreases z@.len() - i,
    {
        i = i + 1;
    }
    if i < z.len() {
        proof {
            crate::hledani::lemma_prvni_je(l@, p, i as int);
        }
        let mut a: Vec<char> = Vec::new();
        let mut k: usize = 0;
        while k < i
            invariant
                k <= i,
                i < z@.len(),
                a@ == z@.take(k as int),
            decreases i - k,
        {
            a.push(z[k]);
            proof {
                assert(z@.take(k + 1) =~= z@.take(k as int).push(z@[k as int]));
            }
            k = k + 1;
        }
        let o = orez_znaky(&a);
        proof {
            assert(a@ == l@.take(i as int));
        }
        if let Some(y) = cti_u32(&o) {
            let mut r = cislo((y + 1) as u64);
            pripoj(&mut r, "/");
            pripoj(&mut r, cislo2(((y + 2) % 100) as u64).as_str());
            return r;
        }
    } else {
        proof {
            crate::hledani::lemma_prvni_zadny(l@, p);
        }
    }
    let mut r = l.to_owned();
    pripoj(&mut r, " (nový)");
    r
}

} // verus!
