//! Hledání prvního prvku posloupnosti s danou vlastností.

use vstd::prelude::*;

verus! {

/// Index prvního prvku, který splňuje `p`, nebo -1.
pub open spec fn prvni<T>(s: Seq<T>, p: spec_fn(T) -> bool) -> int
    decreases s.len(),
{
    if s.len() == 0 {
        -1
    } else if p(s[0]) {
        0
    } else {
        let r = prvni(s.drop_first(), p);
        if r < 0 {
            -1
        } else {
            r + 1
        }
    }
}

pub proof fn lemma_prvni<T>(s: Seq<T>, p: spec_fn(T) -> bool)
    ensures
        -1 <= prvni(s, p) < s.len(),
        prvni(s, p) >= 0 ==> p(s[prvni(s, p)]),
        forall|j: int| 0 <= j < s.len() && (j < prvni(s, p) || prvni(s, p) < 0) ==> !p(#[trigger] s[j]),
    decreases s.len(),
{
    if s.len() > 0 && !p(s[0]) {
        lemma_prvni(s.drop_first(), p);
        assert forall|j: int| 0 <= j < s.len() && (j < prvni(s, p) || prvni(s, p) < 0) implies !p(
            #[trigger] s[j],
        ) by {
            if j > 0 {
                assert(s.drop_first()[j - 1] == s[j]);
            }
        }
    }
}

/// Index prvního prvku s vlastností je `i`, když ji `i` má a žádný dřívější ne.
pub proof fn lemma_prvni_je<T>(s: Seq<T>, p: spec_fn(T) -> bool, i: int)
    requires
        0 <= i < s.len(),
        p(s[i]),
        forall|j: int| 0 <= j < i ==> !p(#[trigger] s[j]),
    ensures
        prvni(s, p) == i,
{
    lemma_prvni(s, p);
}

/// Žádný prvek vlastnost nemá.
pub proof fn lemma_prvni_zadny<T>(s: Seq<T>, p: spec_fn(T) -> bool)
    requires
        forall|j: int| 0 <= j < s.len() ==> !p(#[trigger] s[j]),
    ensures
        prvni(s, p) == -1,
{
    lemma_prvni(s, p);
}

} // verus!

verus! {

/// Posloupnost s přidaným prvkem obsahuje právě původní prvky a nový prvek.
pub proof fn lemma_contains_push<T>(u: Seq<T>, y: T, x: T)
    ensures
        u.push(y).contains(x) <==> (u.contains(x) || x == y),
{
    if u.push(y).contains(x) {
        let w = choose|w: int| 0 <= w < u.push(y).len() && u.push(y)[w] == x;
        if w < u.len() {
            assert(u[w] == x);
        }
    }
    if u.contains(x) {
        let w = choose|w: int| 0 <= w < u.len() && u[w] == x;
        assert(u.push(y)[w] == x);
    }
    if x == y {
        assert(u.push(y)[u.len() as int] == x);
    }
}

} // verus!

verus! {

/// Počet prvků posloupnosti s vlastností `p`.
pub open spec fn pocet<T>(s: Seq<T>, p: spec_fn(T) -> bool) -> nat
    decreases s.len(),
{
    if s.len() == 0 {
        0
    } else {
        pocet(s.drop_last(), p) + if p(s.last()) {
            1nat
        } else {
            0nat
        }
    }
}

/// Počet nepřesáhne délku.
pub proof fn lemma_pocet_nejvys<T>(s: Seq<T>, p: spec_fn(T) -> bool)
    ensures
        pocet(s, p) <= s.len(),
    decreases s.len(),
{
    if s.len() > 0 {
        lemma_pocet_nejvys(s.drop_last(), p);
    }
}

/// Počet v prodlouženém úseku.
pub proof fn lemma_pocet_krok<T>(s: Seq<T>, p: spec_fn(T) -> bool, k: int)
    requires
        0 <= k < s.len(),
    ensures
        pocet(s.take(k + 1), p) == pocet(s.take(k), p) + if p(s[k]) {
            1nat
        } else {
            0nat
        },
{
    assert(s.take(k + 1).drop_last() =~= s.take(k));
}

} // verus!
