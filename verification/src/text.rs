//! Práce s textem nad posloupnostmi znaků: převody, bílé znaky, ořez, řádky, slova,
//! lexikografické pořadí a desítkový zápis čísel.

use vstd::prelude::*;

verus! {

/// Bílý znak podle vlastnosti Unicode `White_Space` (tak ji dokumentuje `char::is_whitespace`).
pub open spec fn je_bily(c: char) -> bool {
    ||| ('\u{9}' <= c && c <= '\u{d}')
    ||| c == ' '
    ||| c == '\u{85}'
    ||| c == '\u{a0}'
    ||| c == '\u{1680}'
    ||| ('\u{2000}' <= c && c <= '\u{200a}')
    ||| c == '\u{2028}'
    ||| c == '\u{2029}'
    ||| c == '\u{202f}'
    ||| c == '\u{205f}'
    ||| c == '\u{3000}'
}

pub fn bily(c: char) -> (r: bool)
    ensures
        r == je_bily(c),
{
    ('\u{9}' <= c && c <= '\u{d}') || c == ' ' || c == '\u{85}' || c == '\u{a0}' || c == '\u{1680}'
        || ('\u{2000}' <= c && c <= '\u{200a}') || c == '\u{2028}' || c == '\u{2029}' || c == '\u{202f}'
        || c == '\u{205f}' || c == '\u{3000}'
}

/// Znaky řetězce jako vektor.
pub fn znaky(s: &str) -> (r: Vec<char>)
    ensures
        r@ == s@,
{
    let mut r: Vec<char> = Vec::new();
    for c in it: s.chars()
        invariant
            r@ == it.seq().take(it.index() as int),
    {
        r.push(c);
    }
    r
}

} // verus!

verus! {

/// Přidá znak na konec řetězce (`String::push`).
#[verifier::external_body]
pub fn pridej_znak(s: &mut String, c: char)
    ensures
        final(s)@ == old(s)@.push(c),
{
    s.push(c);
}

/// Řetězec ze znaků.
pub fn retezec(v: &Vec<char>) -> (r: String)
    ensures
        r@ == v@,
{
    let mut r = String::new();
    let mut i: usize = 0;
    while i < v.len()
        invariant
            i <= v.len(),
            r@ == v@.take(i as int),
        decreases v.len() - i,
    {
        pridej_znak(&mut r, v[i]);
        proof {
            assert(v@.take(i as int).push(v@[i as int]) =~= v@.take(i + 1));
        }
        i = i + 1;
    }
    proof {
        assert(v@.take(v.len() as int) =~= v@);
    }
    r
}

/// Připojí znaky posloupnosti k řetězci.
pub fn pripoj_znaky(s: &mut String, v: &Vec<char>)
    ensures
        final(s)@ == old(s)@ + v@,
{
    let mut i: usize = 0;
    while i < v.len()
        invariant
            i <= v.len(),
            s@ == old(s)@ + v@.take(i as int),
        decreases v.len() - i,
    {
        pridej_znak(s, v[i]);
        proof {
            assert(old(s)@ + v@.take(i as int) + seq![v@[i as int]] =~= old(s)@ + v@.take(i + 1));
        }
        i = i + 1;
    }
    proof {
        assert(v@.take(v.len() as int) =~= v@);
    }
}

/// Připojí řetězec k řetězci.
pub fn pripoj(s: &mut String, t: &str)
    ensures
        final(s)@ == old(s)@ + t@,
{
    let v = znaky(t);
    pripoj_znaky(s, &v);
}

/// Zřetězení posloupnosti řetězců.
pub open spec fn spojeni(c: Seq<Seq<char>>) -> Seq<char>
    decreases c.len(),
{
    if c.len() == 0 {
        Seq::empty()
    } else {
        spojeni(c.drop_last()) + c.last()
    }
}

/// Spojí části do jednoho řetězce.
pub fn spoj(casti: &[&str]) -> (r: String)
    ensures
        r@ == spojeni(casti@.map_values(|x: &str| x@)),
{
    let ghost c = casti@.map_values(|x: &str| x@);
    let mut r = String::new();
    let mut i: usize = 0;
    while i < casti.len()
        invariant
            i <= casti@.len(),
            c == casti@.map_values(|x: &str| x@),
            r@ == spojeni(c.take(i as int)),
        decreases casti@.len() - i,
    {
        pripoj(&mut r, casti[i]);
        proof {
            assert(c.take(i + 1).drop_last() =~= c.take(i as int));
        }
        i = i + 1;
    }
    proof {
        assert(c.take(casti@.len() as int) =~= c);
    }
    r
}

/// Řetězce spojené oddělovačem.
pub open spec fn spojeni_odd(v: Seq<Seq<char>>, sep: Seq<char>) -> Seq<char>
    decreases v.len(),
{
    if v.len() == 0 {
        Seq::empty()
    } else if v.len() == 1 {
        v[0]
    } else {
        spojeni_odd(v.drop_last(), sep) + sep + v.last()
    }
}

/// Spojí řetězce oddělovačem.
pub fn spoj_oddelene(v: &Vec<String>, sep: &str) -> (r: String)
    ensures
        r@ == spojeni_odd(v@.map_values(|x: String| x@), sep@),
{
    let ghost w = v@.map_values(|x: String| x@);
    let mut r = String::new();
    let mut i: usize = 0;
    while i < v.len()
        invariant
            i <= v@.len(),
            w == v@.map_values(|x: String| x@),
            r@ == spojeni_odd(w.take(i as int), sep@),
        decreases v@.len() - i,
    {
        proof {
            assert(w.take(i + 1).drop_last() =~= w.take(i as int));
        }
        if i > 0 {
            pripoj(&mut r, sep);
        } else {
            proof {
                assert(w.take(1) =~= seq![w[0]]);
            }
        }
        pripoj(&mut r, v[i].as_str());
        i = i + 1;
    }
    proof {
        assert(w.take(v@.len() as int) =~= w);
    }
    r
}

/// Začíná řetězec předponou?
pub fn zacina(s: &str, p: &str) -> (r: bool)
    ensures
        r == (p@.len() <= s@.len() && s@.take(p@.len() as int) == p@),
{
    let a = znaky(s);
    let b = znaky(p);
    if b.len() > a.len() {
        return false;
    }
    let mut i: usize = 0;
    while i < b.len()
        invariant
            i <= b@.len(),
            a@ == s@,
            b@ == p@,
            b@.len() <= a@.len(),
            forall|k: int| 0 <= k < i ==> a@[k] == b@[k],
        decreases b@.len() - i,
    {
        if a[i] != b[i] {
            proof {
                assert(a@.take(b@.len() as int)[i as int] != b@[i as int]);
                assert(a@.take(b@.len() as int) != b@);
            }
            return false;
        }
        i = i + 1;
    }
    proof {
        assert(a@.take(b@.len() as int) =~= b@);
    }
    true
}

/// Shoda dvou posloupností znaků.
pub fn stejne_znaky(a: &Vec<char>, b: &Vec<char>) -> (r: bool)
    ensures
        r == (a@ == b@),
{
    if a.len() != b.len() {
        return false;
    }
    let mut i: usize = 0;
    while i < a.len()
        invariant
            i <= a.len(),
            a.len() == b.len(),
            forall|j: int| 0 <= j < i ==> a@[j] == b@[j],
        decreases a.len() - i,
    {
        if a[i] != b[i] {
            return false;
        }
        i = i + 1;
    }
    proof {
        assert(a@ =~= b@);
    }
    true
}

/// Shoda dvou řetězců.
pub fn rovno(a: &str, b: &str) -> (r: bool)
    ensures
        r == (a@ == b@),
{
    let x = znaky(a);
    let y = znaky(b);
    stejne_znaky(&x, &y)
}

/// Lexikografické pořadí podle kódových bodů (tak se řadí `str` – po bajtech UTF-8,
/// což je totéž pořadí kódových bodů).
pub open spec fn lex_mensi(a: Seq<char>, b: Seq<char>) -> bool
    decreases a.len(),
{
    if a.len() == 0 {
        b.len() > 0
    } else if b.len() == 0 {
        false
    } else if a[0] != b[0] {
        (a[0] as int) < (b[0] as int)
    } else {
        lex_mensi(a.drop_first(), b.drop_first())
    }
}

/// Porovnání posloupností znaků: -1 menší, 0 stejné, 1 větší.
pub fn porovnej_znaky(a: &Vec<char>, b: &Vec<char>) -> (r: i8)
    ensures
        r == -1 <==> lex_mensi(a@, b@),
        r == 0 <==> a@ == b@,
        r == 1 <==> lex_mensi(b@, a@),
        -1 <= r <= 1,
{
    let mut i: usize = 0;
    proof {
        assert(a@.skip(0) =~= a@);
        assert(b@.skip(0) =~= b@);
    }
    while i < a.len() && i < b.len()
        invariant
            i <= a.len(),
            i <= b.len(),
            a@.take(i as int) == b@.take(i as int),
            lex_mensi(a@, b@) == lex_mensi(a@.skip(i as int), b@.skip(i as int)),
            lex_mensi(b@, a@) == lex_mensi(b@.skip(i as int), a@.skip(i as int)),
        decreases a.len() - i,
    {
        proof {
            assert(a@.skip(i as int)[0] == a@[i as int]);
            assert(b@.skip(i as int)[0] == b@[i as int]);
        }
        let (x, y) = (a[i], b[i]);
        if x != y {
            proof {
                assert(a@.skip(i as int).len() > 0 && b@.skip(i as int).len() > 0);
            }
            if x < y {
                return -1;
            } else {
                return 1;
            }
        }
        proof {
            assert(a@.skip(i as int).drop_first() =~= a@.skip(i + 1));
            assert(b@.skip(i as int).drop_first() =~= b@.skip(i + 1));
            assert(a@.take(i + 1) =~= a@.take(i as int).push(x));
            assert(b@.take(i + 1) =~= b@.take(i as int).push(y));
        }
        i = i + 1;
    }
    if a.len() == b.len() {
        proof {
            assert(a@ =~= a@.take(i as int));
            assert(b@ =~= b@.take(i as int));
        }
        0
    } else if i == a.len() {
        proof {
            assert(a@.skip(i as int).len() == 0);
            assert(b@.skip(i as int).len() > 0);
            assert(a@ != b@) by {
                assert(a@.len() != b@.len());
            }
        }
        -1
    } else {
        proof {
            assert(b@.skip(i as int).len() == 0);
            assert(a@.skip(i as int).len() > 0);
            assert(a@.len() != b@.len());
        }
        1
    }
}

/// Porovnání řetězců (-1, 0, 1).
pub fn porovnej(a: &str, b: &str) -> (r: i8)
    ensures
        r == -1 <==> lex_mensi(a@, b@),
        r == 0 <==> a@ == b@,
        r == 1 <==> lex_mensi(b@, a@),
        -1 <= r <= 1,
{
    let x = znaky(a);
    let y = znaky(b);
    porovnej_znaky(&x, &y)
}

} // verus!

verus! {

/// Posloupnost bez úvodních bílých znaků.
pub open spec fn bez_uvodnich(s: Seq<char>) -> Seq<char>
    decreases s.len(),
{
    if s.len() > 0 && je_bily(s[0]) {
        bez_uvodnich(s.drop_first())
    } else {
        s
    }
}

/// Posloupnost bez koncových bílých znaků.
pub open spec fn bez_koncovych(s: Seq<char>) -> Seq<char>
    decreases s.len(),
{
    if s.len() > 0 && je_bily(s.last()) {
        bez_koncovych(s.drop_last())
    } else {
        s
    }
}

/// Ořez bílých znaků z obou stran (`str::trim`).
pub open spec fn orez(s: Seq<char>) -> Seq<char> {
    bez_koncovych(bez_uvodnich(s))
}

proof fn lemma_bez_uvodnich_skip(s: Seq<char>, i: int)
    requires
        0 <= i <= s.len(),
        forall|j: int| 0 <= j < i ==> je_bily(#[trigger] s[j]),
    ensures
        bez_uvodnich(s) == bez_uvodnich(s.skip(i)),
    decreases i,
{
    if i > 0 {
        assert(s.drop_first().skip(i - 1) =~= s.skip(i));
        lemma_bez_uvodnich_skip(s.drop_first(), i - 1);
    } else {
        assert(s.skip(0) =~= s);
    }
}

proof fn lemma_bez_koncovych_take(s: Seq<char>, i: int)
    requires
        0 <= i <= s.len(),
        forall|j: int| i <= j < s.len() ==> je_bily(#[trigger] s[j]),
    ensures
        bez_koncovych(s) == bez_koncovych(s.take(i)),
    decreases s.len() - i,
{
    if i < s.len() {
        assert(s.drop_last().take(i) =~= s.take(i));
        lemma_bez_koncovych_take(s.drop_last(), i);
    } else {
        assert(s.take(i) =~= s);
    }
}

/// Ořez bílých znaků z obou stran.
pub fn orez_znaky(s: &Vec<char>) -> (r: Vec<char>)
    ensures
        r@ == orez(s@),
{
    let mut a: usize = 0;
    while a < s.len() && bily(s[a])
        invariant
            a <= s.len(),
            forall|j: int| 0 <= j < a ==> je_bily(#[trigger] s@[j]),
        decreases s.len() - a,
    {
        a = a + 1;
    }
    proof {
        lemma_bez_uvodnich_skip(s@, a as int);
        let t = s@.skip(a as int);
        if t.len() > 0 {
            assert(t[0] == s@[a as int]);
        }
        assert(bez_uvodnich(t) == t);
    }
    let mut b: usize = s.len();
    while b > a && bily(s[b - 1])
        invariant
            a <= b <= s.len(),
            forall|j: int| b <= j < s.len() ==> je_bily(#[trigger] s@[j]),
        decreases b,
    {
        b = b - 1;
    }
    let mut r: Vec<char> = Vec::new();
    let mut i: usize = a;
    while i < b
        invariant
            a <= i <= b,
            b <= s.len(),
            r@ == s@.subrange(a as int, i as int),
        decreases b - i,
    {
        r.push(s[i]);
        proof {
            assert(s@.subrange(a as int, i as int).push(s@[i as int]) =~= s@.subrange(a as int, i + 1));
        }
        i = i + 1;
    }
    proof {
        let t = s@.skip(a as int);
        lemma_bez_koncovych_take(t, (b - a) as int);
        assert(t.take((b - a) as int) =~= s@.subrange(a as int, b as int));
        let u = t.take((b - a) as int);
        if u.len() > 0 {
            assert(u.last() == s@[b - 1]);
        }
        assert(bez_koncovych(u) == u);
    }
    r
}

/// Ořez bílých znaků řetězce (`str::trim`).
pub fn orez_retezec(s: &str) -> (r: String)
    ensures
        r@ == orez(s@),
{
    let v = znaky(s);
    let o = orez_znaky(&v);
    retezec(&o)
}

/// Končí posloupnost danou příponou?
pub open spec fn konci_na(s: Seq<char>, p: Seq<char>) -> bool {
    p.len() <= s.len() && s.skip(s.len() - p.len()) == p
}

pub fn konci(s: &Vec<char>, p: &str) -> (r: bool)
    ensures
        r == konci_na(s@, p@),
{
    let pv = znaky(p);
    if pv.len() > s.len() {
        return false;
    }
    let k = s.len() - pv.len();
    let mut i: usize = 0;
    while i < pv.len()
        invariant
            i <= pv.len(),
            k + pv.len() == s.len(),
            pv@ == p@,
            forall|j: int| 0 <= j < i ==> s@[k + j] == pv@[j],
        decreases pv.len() - i,
    {
        if s[k + i] != pv[i] {
            proof {
                assert(s@.skip(k as int)[i as int] == s@[k + i]);
                assert(s@.skip(k as int)[i as int] != pv@[i as int]);
            }
            return false;
        }
        i = i + 1;
    }
    proof {
        assert(s@.skip(k as int) =~= pv@);
    }
    true
}

/// Index prvního výskytu znaku od pozice `od`, nebo délka posloupnosti.
pub open spec fn najdi_od(s: Seq<char>, c: char, od: int) -> int
    decreases s.len() - od,
{
    if od >= s.len() {
        s.len() as int
    } else if s[od] == c {
        od
    } else {
        najdi_od(s, c, od + 1)
    }
}

/// Řádky textu (`str::lines`): dělí se za `\n`; z řádku ukončeného `\n` se odebere
/// i `\r` před ním; prázdný zbytek za posledním `\n` řádek netvoří.
pub open spec fn radky(s: Seq<char>) -> Seq<Seq<char>>
    decreases s.len(),
{
    if s.len() == 0 {
        seq![]
    } else {
        let k = najdi_od(s, '\n', 0);
        if k >= s.len() {
            seq![s]
        } else {
            proof {
                lemma_najdi_od(s, '\n', 0);
            }
            let r = s.take(k);
            let r2 = if r.len() > 0 && r.last() == '\r' { r.drop_last() } else { r };
            seq![r2] + radky(s.skip(k + 1))
        }
    }
}

pub proof fn lemma_najdi_od(s: Seq<char>, c: char, od: int)
    requires
        0 <= od <= s.len(),
    ensures
        od <= najdi_od(s, c, od) <= s.len(),
        najdi_od(s, c, od) < s.len() ==> s[najdi_od(s, c, od)] == c,
        forall|j: int| od <= j < najdi_od(s, c, od) ==> s[j] != c,
    decreases s.len() - od,
{
    if od < s.len() && s[od] != c {
        lemma_najdi_od(s, c, od + 1);
    }
}

proof fn lemma_najdi_posun(s: Seq<char>, c: char, od: int)
    requires
        0 <= od <= s.len(),
    ensures
        najdi_od(s, c, od) == od + najdi_od(s.skip(od), c, 0),
    decreases s.len() - od,
{
    let t = s.skip(od);
    if od < s.len() {
        assert(t[0] == s[od]);
        if s[od] != c {
            lemma_najdi_posun(s, c, od + 1);
            assert(t.skip(1) =~= s.skip(od + 1));
            lemma_najdi_posun(t, c, 1);
            assert(t.skip(0) =~= t);
        }
    }
}

/// Pohled na vektor posloupností znaků.
pub open spec fn pohled_vv(r: Seq<Vec<char>>) -> Seq<Seq<char>> {
    r.map_values(|v: Vec<char>| v@)
}

/// Řádky textu jako posloupnosti znaků.
pub fn radky_znaky(s: &Vec<char>) -> (r: Vec<Vec<char>>)
    ensures
        pohled_vv(r@) == radky(s@),
{
    let mut r: Vec<Vec<char>> = Vec::new();
    let mut od: usize = 0;
    proof {
        assert(s@.skip(0) =~= s@);
        assert(pohled_vv(r@) =~= seq![]);
    }
    while od < s.len()
        invariant
            od <= s.len(),
            radky(s@) == pohled_vv(r@) + radky(s@.skip(od as int)),
        decreases s.len() - od,
    {
        let mut k: usize = od;
        while k < s.len() && s[k] != '\n'
            invariant
                od <= k <= s.len(),
                forall|j: int| od <= j < k ==> s@[j] != '\n',
            decreases s.len() - k,
        {
            k = k + 1;
        }
        let ghost t = s@.skip(od as int);
        proof {
            lemma_najdi_od(s@, '\n', od as int);
            lemma_najdi_posun(s@, '\n', od as int);
            let n = najdi_od(s@, '\n', od as int);
            if n < k {
                assert(s@[n] == '\n');
                assert(false);
            }
            if k < s.len() && n > k {
                assert(false);
            }
            assert(najdi_od(t, '\n', 0) == k - od);
            assert(t.len() > 0);
        }
        let mut radek: Vec<char> = Vec::new();
        let mut j: usize = od;
        while j < k
            invariant
                od <= j <= k,
                k <= s.len(),
                radek@ == s@.subrange(od as int, j as int),
            decreases k - j,
        {
            radek.push(s[j]);
            proof {
                assert(s@.subrange(od as int, j as int).push(s@[j as int]) =~= s@.subrange(
                    od as int,
                    j + 1,
                ));
            }
            j = j + 1;
        }
        proof {
            assert(t.take((k - od) as int) =~= radek@);
        }
        let ghost r0 = r@;
        if k < s.len() {
            if radek.len() > 0 && radek[radek.len() - 1] == '\r' {
                radek.pop();
            }
            proof {
                assert(t.skip((k - od) + 1) =~= s@.skip(k + 1));
            }
            r.push(radek);
            od = k + 1;
        } else {
            proof {
                assert(t =~= radek@);
                assert(s@.skip(s.len() as int).len() == 0);
            }
            r.push(radek);
            od = k;
        }
        proof {
            assert(pohled_vv(r@) =~= pohled_vv(r0).push(r@.last()@));
            assert(pohled_vv(r@) + radky(s@.skip(od as int)) =~= pohled_vv(r0) + (seq![r@.last()@] + radky(s@.skip(od as int))));
        }
    }
    proof {
        assert(s@.skip(od as int).len() == 0);
        assert(pohled_vv(r@) + radky(s@.skip(od as int)) =~= pohled_vv(r@));
    }
    r
}

} // verus!

verus! {

/// První index od `i`, kde neleží bílý znak (nebo délka).
pub open spec fn dalsi_nebily(s: Seq<char>, i: int) -> int
    decreases s.len() - i,
{
    if i >= s.len() {
        s.len() as int
    } else if !je_bily(s[i]) {
        i
    } else {
        dalsi_nebily(s, i + 1)
    }
}

/// První index od `i`, kde leží bílý znak (nebo délka).
pub open spec fn dalsi_bily(s: Seq<char>, i: int) -> int
    decreases s.len() - i,
{
    if i >= s.len() {
        s.len() as int
    } else if je_bily(s[i]) {
        i
    } else {
        dalsi_bily(s, i + 1)
    }
}

pub proof fn lemma_dalsi(s: Seq<char>, i: int)
    requires
        0 <= i <= s.len(),
    ensures
        i <= dalsi_nebily(s, i) <= s.len(),
        i <= dalsi_bily(s, i) <= s.len(),
        dalsi_nebily(s, i) < s.len() ==> !je_bily(s[dalsi_nebily(s, i)]),
        dalsi_bily(s, i) < s.len() ==> je_bily(s[dalsi_bily(s, i)]),
        forall|j: int| i <= j < dalsi_nebily(s, i) ==> je_bily(#[trigger] s[j]),
        forall|j: int| i <= j < dalsi_bily(s, i) ==> !je_bily(#[trigger] s[j]),
    decreases s.len() - i,
{
    if i < s.len() {
        lemma_dalsi(s, i + 1);
    }
}

/// Slova oddělená bílými znaky (`str::split_whitespace`), počínaje indexem `i`.
pub open spec fn slova_od(s: Seq<char>, i: int) -> Seq<Seq<char>>
    decreases s.len() - i,
{
    if i < 0 || i >= s.len() {
        seq![]
    } else {
        let a = dalsi_nebily(s, i);
        if a >= s.len() {
            seq![]
        } else {
            proof {
                lemma_dalsi(s, i);
                lemma_dalsi(s, a);
            }
            let b = dalsi_bily(s, a);
            seq![s.subrange(a, b)] + slova_od(s, b)
        }
    }
}

pub open spec fn slova(s: Seq<char>) -> Seq<Seq<char>> {
    slova_od(s, 0)
}

/// Slova textu (`str::split_whitespace`).
pub fn slova_znaky(s: &Vec<char>) -> (r: Vec<Vec<char>>)
    ensures
        pohled_vv(r@) == slova(s@),
{
    let mut r: Vec<Vec<char>> = Vec::new();
    let mut i: usize = 0;
    proof {
        assert(pohled_vv(r@) =~= seq![]);
    }
    while i < s.len()
        invariant
            i <= s.len(),
            slova(s@) == pohled_vv(r@) + slova_od(s@, i as int),
        decreases s.len() - i,
    {
        let mut a: usize = i;
        while a < s.len() && bily(s[a])
            invariant
                i <= a <= s.len(),
                forall|j: int| i <= j < a ==> je_bily(#[trigger] s@[j]),
            decreases s.len() - a,
        {
            a = a + 1;
        }
        proof {
            lemma_dalsi(s@, i as int);
            let n = dalsi_nebily(s@, i as int);
            if n < a {
                assert(je_bily(s@[n]));
            }
            if a < s.len() && n > a {
                assert(je_bily(s@[a as int]));
            }
            assert(n == a);
        }
        if a == s.len() {
            proof {
                assert(slova_od(s@, i as int) =~= seq![]);
                assert(slova_od(s@, s.len() as int) =~= seq![]);
            }
            i = a;
        } else {
            let mut b: usize = a;
            let mut slovo: Vec<char> = Vec::new();
            while b < s.len() && !bily(s[b])
                invariant
                    a <= b <= s.len(),
                    forall|j: int| a <= j < b ==> !je_bily(#[trigger] s@[j]),
                    slovo@ == s@.subrange(a as int, b as int),
                decreases s.len() - b,
            {
                slovo.push(s[b]);
                proof {
                    assert(s@.subrange(a as int, b as int).push(s@[b as int]) =~= s@.subrange(
                        a as int,
                        b + 1,
                    ));
                }
                b = b + 1;
            }
            proof {
                lemma_dalsi(s@, a as int);
                let m = dalsi_bily(s@, a as int);
                if m < b {
                    assert(!je_bily(s@[m]));
                }
                if b < s.len() && m > b {
                    assert(!je_bily(s@[b as int]));
                }
                assert(m == b);
            }
            let ghost r0 = r@;
            r.push(slovo);
            proof {
                assert(pohled_vv(r@) =~= pohled_vv(r0).push(s@.subrange(a as int, b as int)));
                assert(pohled_vv(r@) + slova_od(s@, b as int) =~= pohled_vv(r0) + (seq![
                    s@.subrange(a as int, b as int),
                ] + slova_od(s@, b as int)));
            }
            i = b;
        }
    }
    proof {
        assert(pohled_vv(r@) + slova_od(s@, i as int) =~= pohled_vv(r@));
    }
    r
}

/// Index posledního výskytu znaku, nebo -1.
pub open spec fn posledni_vyskyt(s: Seq<char>, c: char) -> int
    decreases s.len(),
{
    if s.len() == 0 {
        -1
    } else if s.last() == c {
        s.len() - 1
    } else {
        posledni_vyskyt(s.drop_last(), c)
    }
}

pub proof fn lemma_posledni_vyskyt(s: Seq<char>, c: char)
    ensures
        -1 <= posledni_vyskyt(s, c) < s.len(),
        posledni_vyskyt(s, c) >= 0 ==> s[posledni_vyskyt(s, c)] == c,
        forall|j: int| posledni_vyskyt(s, c) < j < s.len() ==> s[j] != c,
    decreases s.len(),
{
    if s.len() > 0 && s.last() != c {
        lemma_posledni_vyskyt(s.drop_last(), c);
        assert forall|j: int| posledni_vyskyt(s, c) < j < s.len() implies s[j] != c by {
            if j < s.len() - 1 {
                assert(s.drop_last()[j] == s[j]);
            }
        }
    }
}

/// Index posledního výskytu znaku (pro `rsplit_once`).
pub fn posledni(s: &Vec<char>, c: char) -> (r: Option<usize>)
    ensures
        match r {
            Some(k) => k as int == posledni_vyskyt(s@, c),
            None => posledni_vyskyt(s@, c) == -1,
        },
{
    let mut k: usize = s.len();
    proof {
        assert(s@.take(s.len() as int) =~= s@);
    }
    while k > 0 && s[k - 1] != c
        invariant
            k <= s.len(),
            posledni_vyskyt(s@, c) == posledni_vyskyt(s@.take(k as int), c),
        decreases k,
    {
        proof {
            assert(s@.take(k as int).drop_last() =~= s@.take(k - 1));
        }
        k = k - 1;
    }
    proof {
        assert(s@.take(s.len() as int) =~= s@);
    }
    if k == 0 {
        proof {
            assert(s@.take(0).len() == 0);
        }
        None
    } else {
        Some(k - 1)
    }
}

/// Úsek posloupnosti znaků.
pub fn usek(s: &Vec<char>, a: usize, b: usize) -> (r: Vec<char>)
    requires
        a <= b <= s.len(),
    ensures
        r@ == s@.subrange(a as int, b as int),
{
    let mut r: Vec<char> = Vec::new();
    let mut i: usize = a;
    while i < b
        invariant
            a <= i <= b,
            b <= s.len(),
            r@ == s@.subrange(a as int, i as int),
        decreases b - i,
    {
        r.push(s[i]);
        proof {
            assert(s@.subrange(a as int, i as int).push(s@[i as int]) =~= s@.subrange(a as int, i + 1));
        }
        i = i + 1;
    }
    r
}

/// Malá písmena podle Unicode – výsledek `str::to_lowercase`.
pub uninterp spec fn mala_pismena(s: Seq<char>) -> Seq<char>;

/// Velká písmena podle Unicode – výsledek `str::to_uppercase`.
pub uninterp spec fn velka_pismena(s: Seq<char>) -> Seq<char>;

/// `str::to_lowercase`: výsledek je pojmenován, závisí jen na vstupu.
#[verifier::external_body]
pub fn na_mala(s: &str) -> (r: String)
    ensures
        r@ == mala_pismena(s@),
{
    s.to_lowercase()
}

/// `str::to_uppercase`: výsledek je pojmenován, závisí jen na vstupu.
#[verifier::external_body]
pub fn na_velka(s: &str) -> (r: String)
    ensures
        r@ == velka_pismena(s@),
{
    s.to_uppercase()
}

/// Číslice 0–9 jako znak.
pub open spec fn cislice(d: nat) -> char {
    (48 + d) as char
}

/// Desítkový zápis přirozeného čísla.
pub open spec fn desitkove(n: nat) -> Seq<char>
    decreases n,
{
    if n < 10 {
        seq![cislice(n)]
    } else {
        desitkove(n / 10).push(cislice(n % 10))
    }
}

/// Zápis nejméně na dvě místa s úvodní nulou (`{:02}`).
pub open spec fn dvoumistne(n: nat) -> Seq<char> {
    if n < 10 {
        seq!['0', cislice(n)]
    } else {
        desitkove(n)
    }
}

fn znak_cislice(d: u64) -> (c: char)
    requires
        d < 10,
    ensures
        c == cislice(d as nat),
{
    if d == 0 { '0' } else if d == 1 { '1' } else if d == 2 { '2' } else if d == 3 { '3' }
    else if d == 4 { '4' } else if d == 5 { '5' } else if d == 6 { '6' } else if d == 7 { '7' }
    else if d == 8 { '8' } else { '9' }
}

/// Desítkový zápis čísla jako znaky.
pub fn cislo_znaky(n: u64) -> (r: Vec<char>)
    ensures
        r@ == desitkove(n as nat),
    decreases n,
{
    if n < 10 {
        let mut r: Vec<char> = Vec::new();
        r.push(znak_cislice(n));
        r
    } else {
        let mut r = cislo_znaky(n / 10);
        r.push(znak_cislice(n % 10));
        r
    }
}

/// Desítkový zápis čísla.
pub fn cislo(n: u64) -> (r: String)
    ensures
        r@ == desitkove(n as nat),
{
    let v = cislo_znaky(n);
    retezec(&v)
}

/// Zápis čísla nejméně na dvě místa (`{:02}`).
pub fn cislo2(n: u64) -> (r: String)
    ensures
        r@ == dvoumistne(n as nat),
{
    let mut s = String::new();
    if n < 10 {
        pridej_znak(&mut s, '0');
        pridej_znak(&mut s, znak_cislice(n));
        proof {
            assert(s@ =~= seq!['0', cislice(n as nat)]);
        }
        s
    } else {
        cislo(n)
    }
}

} // verus!
