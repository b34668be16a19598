//! Facts about sequences that the proofs of the loops share.

use vstd::prelude::*;

verus! {

/// Nothing passes a filter of the empty sequence.
pub proof fn lema_filtro_vazio<A>(p: spec_fn(A) -> bool)
    ensures
        Seq::<A>::empty().filter(p) == Seq::<A>::empty(),
{
    reveal(Seq::filter);
}

/// Filtering one element more keeps what was kept and adds the element if it
/// passes.
pub proof fn lema_filtro_passo<A>(s: Seq<A>, p: spec_fn(A) -> bool, i: int)
    requires
        0 <= i < s.len(),
    ensures
        s.take(i + 1).filter(p) == if p(s[i]) {
            s.take(i).filter(p).push(s[i])
        } else {
            s.take(i).filter(p)
        },
{
    assert(s.take(i + 1) =~= s.take(i).push(s[i]));
    s.take(i).lemma_filter_push(s[i], p);
}

/// Flattening one part more appends that part.
pub proof fn lema_achatar_passo<A>(s: Seq<Seq<A>>, i: int)
    requires
        0 <= i < s.len(),
    ensures
        s.take(i + 1).flatten() == s.take(i).flatten() + s[i],
{
    assert(s.take(i + 1) =~= s.take(i).push(s[i]));
    s.take(i).lemma_flatten_push(s[i]);
}

/// Whatever passes a filter was in the sequence and meets the test.
pub proof fn lema_filtro_elemento<A>(s: Seq<A>, p: spec_fn(A) -> bool, k: int)
    requires
        0 <= k < s.filter(p).len(),
    ensures
        p(s.filter(p)[k]),
        s.contains(s.filter(p)[k]),
{
    s.lemma_filter_pred(p, k);
    assert(s.filter(p).contains(s.filter(p)[k]));
    s.lemma_filter_contains_rev(p, s.filter(p)[k]);
}

/// The part and the place in it from which an element of a flattened
/// sequence comes.
pub proof fn lema_achatado_posicao<A>(partes: Seq<Seq<A>>, k: int) -> (r: (int, int))
    requires
        0 <= k < partes.flatten().len(),
    ensures
        0 <= r.0 < partes.len(),
        0 <= r.1 < partes[r.0].len(),
        partes[r.0][r.1] == partes.flatten()[k],
    decreases partes.len(),
{
    if partes.len() == 0 {
        (0, 0)
    } else if k < partes.first().len() {
        (0, k)
    } else {
        let r = lema_achatado_posicao(partes.drop_first(), k - partes.first().len());
        (r.0 + 1, r.1)
    }
}

/// Every element of a flattened sequence comes from one of the parts.
pub proof fn lema_achatado<A>(partes: Seq<Seq<A>>, k: int)
    requires
        0 <= k < partes.flatten().len(),
    ensures
        exists|i: int, m: int|
            0 <= i < partes.len() && 0 <= m < partes[i].len() && #[trigger] partes[i][m]
                == partes.flatten()[k],
{
    let r = lema_achatado_posicao(partes, k);
    assert(partes[r.0][r.1] == partes.flatten()[k]);
}

/// Every element of a part is an element of the flattened sequence.
pub proof fn lema_parte_no_achatado<A>(partes: Seq<Seq<A>>, i: int, m: int)
    requires
        0 <= i < partes.len(),
        0 <= m < partes[i].len(),
    ensures
        partes.flatten().contains(partes[i][m]),
    decreases partes.len(),
{
    if i == 0 {
        assert(partes.flatten()[m] == partes[0][m]);
    } else {
        let resto = partes.drop_first();
        lema_parte_no_achatado(resto, i - 1, m);
        let k = choose|k: int| 0 <= k < resto.flatten().len() && resto.flatten()[k] == partes[i][m];
        assert(partes.flatten()[partes.first().len() + k] == partes[i][m]);
    }
}

/// Whatever is in the sequence and meets the test passes the filter.
pub proof fn lema_filtro_contem<A>(s: Seq<A>, p: spec_fn(A) -> bool, e: A)
    requires
        s.contains(e),
        p(e),
    ensures
        s.filter(p).contains(e),
{
    let k = choose|k: int| 0 <= k < s.len() && s[k] == e;
    s.lemma_filter_contains(p, k);
}

/// Two elements that pass a filter stand in the sequence in the order in
/// which they stand in the filtered sequence. Gives their places.
pub proof fn lema_filtro_ordem<A>(s: Seq<A>, p: spec_fn(A) -> bool, i: int, k: int) -> (r: (
    int,
    int,
))
    requires
        0 <= i < k < s.filter(p).len(),
    ensures
        0 <= r.0 < r.1 < s.len(),
        s[r.0] == s.filter(p)[i],
        s[r.1] == s.filter(p)[k],
    decreases s.len(),
{
    reveal(Seq::filter);
    if s.len() == 0 {
        (0, 0)
    } else {
        let inicio = s.drop_last();
        let filtrado = inicio.filter(p);
        if k < filtrado.len() {
            lema_filtro_ordem(inicio, p, i, k)
        } else {
            assert(filtrado.contains(filtrado[i]));
            inicio.lemma_filter_contains_rev(p, filtrado[i]);
            let a = choose|a: int| 0 <= a < inicio.len() && inicio[a] == filtrado[i];
            (a, s.len() - 1)
        }
    }
}

/// Two elements of a flattened sequence come, in their order, from an
/// earlier and a later part, or from an earlier and a later place of one
/// part. Gives part and place of each.
pub proof fn lema_achatado_ordem<A>(partes: Seq<Seq<A>>, n1: int, n2: int) -> (r: (
    int,
    int,
    int,
    int,
))
    requires
        0 <= n1 < n2 < partes.flatten().len(),
    ensures
        0 <= r.0 <= r.2 < partes.len(),
        0 <= r.1 < partes[r.0].len(),
        0 <= r.3 < partes[r.2].len(),
        r.0 == r.2 ==> r.1 < r.3,
        partes[r.0][r.1] == partes.flatten()[n1],
        partes[r.2][r.3] == partes.flatten()[n2],
    decreases partes.len(),
{
    if partes.len() == 0 {
        (0, 0, 0, 0)
    } else {
        let a = partes.first().len() as int;
        let resto = partes.drop_first();
        if n2 < a {
            (0, n1, 0, n2)
        } else if n1 < a {
            let r = lema_achatado_posicao(resto, n2 - a);
            (0, n1, r.0 + 1, r.1)
        } else {
            let r = lema_achatado_ordem(resto, n1 - a, n2 - a);
            (r.0 + 1, r.1, r.2 + 1, r.3)
        }
    }
}

/// The concatenation of four sequences is the four flattened.
pub proof fn lema_quatro_partes<A>(a: Seq<A>, b: Seq<A>, c: Seq<A>, d: Seq<A>)
    ensures
        seq![a, b, c, d].flatten() == a + b + c + d,
{
    let partes = seq![a, b, c, d];
    let sem_a = partes.drop_first();
    let sem_b = sem_a.drop_first();
    let sem_c = sem_b.drop_first();
    let sem_d = sem_c.drop_first();
    assert(sem_d.flatten() =~= Seq::<A>::empty());
    assert(sem_c.flatten() =~= d);
    assert(sem_b.flatten() =~= c + d);
    assert(sem_a.flatten() =~= b + c + d);
    assert(partes.flatten() =~= a + b + c + d);
}

/// Two tests that agree on every element of a sequence let the same
/// elements pass.
pub proof fn lema_filtro_igual<A>(s: Seq<A>, p: spec_fn(A) -> bool, q: spec_fn(A) -> bool)
    requires
        forall|i: int| 0 <= i < s.len() ==> p(#[trigger] s[i]) == q(s[i]),
    ensures
        s.filter(p) == s.filter(q),
    decreases s.len(),
{
    reveal(Seq::filter);
    if s.len() > 0 {
        lema_filtro_igual(s.drop_last(), p, q);
    }
}

} // verus!
